//! Side conditions: conjunctions of constraints over the parameters of facts.

use vstd::prelude::*;
use crate::fact::{Value, ValueView};
use crate::views::{lemma_views_push, lemma_views_take, views};

verus! {

/// How the two sides of a constraint must relate.
#[derive(Debug, Clone, Copy, PartialEq, Eq)]
pub enum Relation {
    Equal,
    Less,
    LessOrEqual,
    Contains,
}

/// One side of a constraint: a parameter of a named fact, or a constant.
#[derive(Debug, PartialEq, Eq)]
pub enum Atom {
    /// The parameter `selector` of the fact that is bound to `arg`.
    Select { selector: String, arg: String },
    Const(Value),
}

/// The mathematical model of an [`Atom`].
pub enum AtomView {
    Select { selector: Seq<char>, arg: Seq<char> },
    Const(ValueView),
}

impl AtomView {
    /// This atom once the parameter `selector` of `arg` is known to be `value`.
    pub open spec fn substitute(
        self,
        selector: Seq<char>,
        arg: Seq<char>,
        value: ValueView,
    ) -> AtomView {
        if self == (AtomView::Select { selector, arg }) {
            AtomView::Const(value)
        } else {
            self
        }
    }

    /// This atom once each binding of a parameter of `arg` has been substituted, in order.
    pub open spec fn substitute_all(
        self,
        arg: Seq<char>,
        bindings: Seq<(Seq<char>, ValueView)>,
    ) -> AtomView
        decreases bindings.len(),
    {
        if bindings.len() == 0 {
            self
        } else {
            self.substitute_all(arg, bindings.drop_last()).substitute(
                bindings.last().0,
                arg,
                bindings.last().1,
            )
        }
    }
}

/// Substituting a list of bindings comes to substituting the first binding of the
/// parameter that the atom selects: an atom that selects `selector` of `arg` becomes
/// the value of the first binding of `selector`, and any other atom stays as it is.
pub proof fn lemma_first_binding_decides(
    atom: AtomView,
    arg: Seq<char>,
    bindings: Seq<(Seq<char>, ValueView)>,
)
    ensures
        forall|k: int|
            0 <= k < bindings.len() && atom == (AtomView::Select {
                selector: (#[trigger] bindings[k]).0,
                arg,
            }) && (forall|j: int| 0 <= j < k ==> (#[trigger] bindings[j]).0 != bindings[k].0)
                ==> atom.substitute_all(arg, bindings) == AtomView::Const(bindings[k].1),
        (forall|k: int|
            0 <= k < bindings.len() ==> atom != (AtomView::Select {
                selector: (#[trigger] bindings[k]).0,
                arg,
            })) ==> atom.substitute_all(arg, bindings) == atom,
    decreases bindings.len(),
{
    if bindings.len() > 0 {
        let front = bindings.drop_last();
        lemma_first_binding_decides(atom, arg, front);
        assert forall|k: int|
            0 <= k < bindings.len() && atom == (AtomView::Select {
                selector: (#[trigger] bindings[k]).0,
                arg,
            }) && (forall|j: int|
                0 <= j < k ==> (#[trigger] bindings[j]).0
                    != bindings[k].0) implies atom.substitute_all(arg, bindings) == AtomView::Const(
            bindings[k].1,
        ) by {
            if k < front.len() {
                assert(front[k] == bindings[k]);
                assert forall|j: int| 0 <= j < k implies (#[trigger] front[j]).0 != front[k].0 by {
                    assert(front[j] == bindings[j]);
                }
            } else {
                assert forall|j: int| 0 <= j < front.len() implies atom != (AtomView::Select {
                    selector: (#[trigger] front[j]).0,
                    arg,
                }) by {
                    assert(front[j] == bindings[j]);
                }
            }
        }
        if forall|k: int|
            0 <= k < bindings.len() ==> atom != (AtomView::Select {
                selector: (#[trigger] bindings[k]).0,
                arg,
            }) {
            assert forall|j: int| 0 <= j < front.len() implies atom != (AtomView::Select {
                selector: (#[trigger] front[j]).0,
                arg,
            }) by {
                assert(front[j] == bindings[j]);
            }
            assert(atom != (AtomView::Select { selector: bindings[bindings.len() - 1].0, arg }));
        }
    }
}

impl View for Atom {
    type V = AtomView;

    open spec fn view(&self) -> AtomView {
        match self {
            Atom::Select { selector, arg } => AtomView::Select { selector: selector@, arg: arg@ },
            Atom::Const(value) => AtomView::Const(value@),
        }
    }
}

impl Clone for Atom {
    fn clone(&self) -> (res: Atom)
        ensures
            res@ == self@,
    {
        match self {
            Atom::Select { selector, arg } => Atom::Select {
                selector: selector.clone(),
                arg: arg.clone(),
            },
            Atom::Const(value) => Atom::Const(value.clone()),
        }
    }
}

impl Atom {
    /// Replaces this atom by the constant `value` if it selects `selector` of `arg`.
    pub fn substitute(&self, selector: &String, arg: &String, value: &Value) -> (res: Atom)
        ensures
            res@ == self@.substitute(selector@, arg@, value@),
    {
        match self {
            Atom::Select { selector: own_selector, arg: own_arg } => {
                if *own_selector == *selector && *own_arg == *arg {
                    Atom::Const(value.clone())
                } else {
                    self.clone()
                }
            },
            Atom::Const(_) => self.clone(),
        }
    }

    /// Substitutes every binding of a parameter of `arg`, in order.
    pub fn substitute_all(&self, arg: &String, bindings: &Vec<(String, Value)>) -> (res: Atom)
        ensures
            res@ == self@.substitute_all(arg@, views(bindings@)),
    {
        let mut current = self.clone();
        let mut i: usize = 0;
        assert(views(bindings@.take(0)) =~= Seq::empty());
        while i < bindings.len()
            invariant
                i <= bindings.len(),
                current@ == self@.substitute_all(arg@, views(bindings@.take(i as int))),
            decreases bindings.len() - i,
        {
            proof {
                lemma_views_take(bindings@, i as int);
                let grown = views(bindings@.take(i + 1));
                assert(grown.drop_last() =~= views(bindings@.take(i as int)));
            }
            current = current.substitute(&bindings[i].0, arg, &bindings[i].1);
            i += 1;
        }
        assert(bindings@.take(i as int) =~= bindings@);
        current
    }
}

/// A single constraint between two atoms.
#[derive(Debug, PartialEq, Eq)]
pub struct Constraint {
    pub relation: Relation,
    pub left: Atom,
    pub right: Atom,
}

/// The mathematical model of a [`Constraint`].
pub struct ConstraintView {
    pub relation: Relation,
    pub left: AtomView,
    pub right: AtomView,
}

impl ConstraintView {
    /// This constraint once each binding of a parameter of `arg` has been substituted on both sides.
    pub open spec fn substitute_all(
        self,
        arg: Seq<char>,
        bindings: Seq<(Seq<char>, ValueView)>,
    ) -> ConstraintView {
        ConstraintView {
            relation: self.relation,
            left: self.left.substitute_all(arg, bindings),
            right: self.right.substitute_all(arg, bindings),
        }
    }
}

impl View for Constraint {
    type V = ConstraintView;

    open spec fn view(&self) -> ConstraintView {
        ConstraintView { relation: self.relation, left: self.left@, right: self.right@ }
    }
}

impl Clone for Constraint {
    fn clone(&self) -> (res: Constraint)
        ensures
            res@ == self@,
    {
        Constraint { relation: self.relation, left: self.left.clone(), right: self.right.clone() }
    }
}

impl Constraint {
    /// Substitutes every binding of a parameter of `arg` on both sides, in order.
    pub fn substitute_all(&self, arg: &String, bindings: &Vec<(String, Value)>) -> (res: Constraint)
        ensures
            res@ == self@.substitute_all(arg@, views(bindings@)),
    {
        Constraint {
            relation: self.relation,
            left: self.left.substitute_all(arg, bindings),
            right: self.right.substitute_all(arg, bindings),
        }
    }
}

/// A conjunction of constraints, kept in the order in which they were added.
#[derive(Debug, PartialEq, Eq)]
pub struct Predicate {
    pub constraints: Vec<Constraint>,
}

/// A conjunction once each binding of a parameter of `arg` has been substituted in every constraint.
pub open spec fn substitute_all(
    constraints: Seq<ConstraintView>,
    arg: Seq<char>,
    bindings: Seq<(Seq<char>, ValueView)>,
) -> Seq<ConstraintView> {
    constraints.map_values(|c: ConstraintView| c.substitute_all(arg, bindings))
}

impl View for Predicate {
    type V = Seq<ConstraintView>;

    open spec fn view(&self) -> Seq<ConstraintView> {
        views(self.constraints@)
    }
}

impl Clone for Predicate {
    fn clone(&self) -> (res: Predicate)
        ensures
            res@ == self@,
    {
        let mut constraints: Vec<Constraint> = Vec::new();
        let mut i: usize = 0;
        assert(views(constraints@) =~= views(self.constraints@.take(0)));
        while i < self.constraints.len()
            invariant
                i <= self.constraints.len(),
                views(constraints@) == views(self.constraints@.take(i as int)),
            decreases self.constraints.len() - i,
        {
            let constraint = self.constraints[i].clone();
            proof {
                lemma_views_push(constraints@, constraint);
                lemma_views_take(self.constraints@, i as int);
            }
            constraints.push(constraint);
            i += 1;
        }
        assert(self.constraints@.take(i as int) =~= self.constraints@);
        Predicate { constraints }
    }
}

impl Predicate {
    /// The conjunction of no constraints.
    pub fn new() -> (res: Predicate)
        ensures
            res@ == Seq::<ConstraintView>::empty(),
    {
        let res = Predicate { constraints: Vec::new() };
        assert(res@ =~= Seq::<ConstraintView>::empty());
        res
    }

    /// The constraints of `self` followed by those of `other`; nothing is merged or dropped.
    pub fn concat(&self, other: &Predicate) -> (res: Predicate)
        ensures
            res@ == self@ + other@,
    {
        let mut res = self.clone();
        let mut i: usize = 0;
        assert(views(other.constraints@.take(0)) =~= Seq::empty());
        assert(self@ + Seq::empty() =~= self@);
        while i < other.constraints.len()
            invariant
                i <= other.constraints.len(),
                res@ == self@ + views(other.constraints@.take(i as int)),
            decreases other.constraints.len() - i,
        {
            let constraint = other.constraints[i].clone();
            proof {
                lemma_views_push(res.constraints@, constraint);
                lemma_views_take(other.constraints@, i as int);
                assert((self@ + views(other.constraints@.take(i as int))).push(constraint@)
                    =~= self@ + views(other.constraints@.take(i as int)).push(constraint@));
            }
            res.constraints.push(constraint);
            i += 1;
        }
        assert(other.constraints@.take(i as int) =~= other.constraints@);
        res
    }

    /// Substitutes every binding of a parameter of `arg` in every constraint.
    pub fn substitute_all(&self, arg: &String, bindings: &Vec<(String, Value)>) -> (res: Predicate)
        ensures
            res@ == substitute_all(self@, arg@, views(bindings@)),
    {
        let mut constraints: Vec<Constraint> = Vec::new();
        let mut i: usize = 0;
        let ghost done = |c: ConstraintView| c.substitute_all(arg@, views(bindings@));
        assert(views(constraints@) =~= views(self.constraints@.take(0)).map_values(done));
        while i < self.constraints.len()
            invariant
                i <= self.constraints.len(),
                done == |c: ConstraintView| c.substitute_all(arg@, views(bindings@)),
                views(constraints@) == views(self.constraints@.take(i as int)).map_values(done),
            decreases self.constraints.len() - i,
        {
            let constraint = self.constraints[i].substitute_all(arg, bindings);
            proof {
                lemma_views_push(constraints@, constraint);
                lemma_views_take(self.constraints@, i as int);
                let seen = views(self.constraints@.take(i as int));
                assert(seen.push(self.constraints@[i as int]@).map_values(done) =~= seen.map_values(
                    done,
                ).push(constraint@));
            }
            constraints.push(constraint);
            i += 1;
        }
        assert(self.constraints@.take(i as int) =~= self.constraints@);
        Predicate { constraints }
    }
}

} // verus!
