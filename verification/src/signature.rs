//! Rule signatures and the library that holds them.

use vstd::prelude::*;
use crate::fact::FactName;
use crate::predicate::{ConstraintView, Predicate};
use crate::views::{lemma_views_push, lemma_views_take, views};

verus! {

/// How an antecedent of a rule is quantified.
#[derive(Debug, Clone, Copy, PartialEq, Eq)]
pub enum Mode {
    Exists,
    ForAll,
}

impl View for Mode {
    type V = Mode;

    open spec fn view(&self) -> Mode {
        *self
    }
}

/// A named inference rule: the antecedents it needs, the judgment it concludes,
/// and the condition under which it applies.
#[derive(Debug, PartialEq, Eq)]
pub struct ComputationSignature {
    pub name: String,
    /// Each antecedent: its parameter name, its judgment family and its mode.
    pub params: Vec<(String, FactName, Mode)>,
    pub ret: FactName,
    pub precondition: Predicate,
}

/// The mathematical model of a [`ComputationSignature`].
pub struct SignatureView {
    pub name: Seq<char>,
    pub params: Seq<(Seq<char>, Seq<char>, Mode)>,
    pub ret: Seq<char>,
    pub precondition: Seq<ConstraintView>,
}

impl View for ComputationSignature {
    type V = SignatureView;

    open spec fn view(&self) -> SignatureView {
        SignatureView {
            name: self.name@,
            params: views(self.params@),
            ret: self.ret@,
            precondition: self.precondition@,
        }
    }
}

impl Clone for ComputationSignature {
    fn clone(&self) -> (res: ComputationSignature)
        ensures
            res@ == self@,
    {
        let mut params: Vec<(String, FactName, Mode)> = Vec::new();
        let mut i: usize = 0;
        assert(views(params@) =~= views(self.params@.take(0)));
        while i < self.params.len()
            invariant
                i <= self.params.len(),
                views(params@) == views(self.params@.take(i as int)),
            decreases self.params.len() - i,
        {
            let param = (self.params[i].0.clone(), self.params[i].1.clone(), self.params[i].2);
            proof {
                lemma_views_push(params@, param);
                lemma_views_take(self.params@, i as int);
            }
            params.push(param);
            i += 1;
        }
        assert(self.params@.take(i as int) =~= self.params@);
        ComputationSignature {
            name: self.name.clone(),
            params,
            ret: self.ret.clone(),
            precondition: self.precondition.clone(),
        }
    }
}

/// The names of the rules in `rules` that conclude a fact of `family`, in order.
pub open spec fn producers(rules: Seq<SignatureView>, family: Seq<char>) -> Seq<Seq<char>> {
    rules.filter(|rule: SignatureView| rule.ret == family).map_values(|rule: SignatureView| rule.name)
}

/// The rules that a derivation may apply, found by name.
#[derive(Debug, PartialEq, Eq)]
pub struct Library {
    pub computation_signatures: Vec<ComputationSignature>,
}

impl View for Library {
    type V = Seq<SignatureView>;

    open spec fn view(&self) -> Seq<SignatureView> {
        views(self.computation_signatures@)
    }
}

impl Library {
    /// The first rule called `name`, if the library has one.
    pub fn lookup(&self, name: &String) -> (res: Option<&ComputationSignature>)
        ensures
            match res {
                Some(rule) => exists|i: int|
                    0 <= i < self@.len() && #[trigger] self@[i] == rule@ && rule@.name == name@
                        && forall|j: int| 0 <= j < i ==> (#[trigger] self@[j]).name != name@,
                None => forall|i: int| 0 <= i < self@.len() ==> (#[trigger] self@[i]).name != name@,
            },
    {
        let mut i: usize = 0;
        while i < self.computation_signatures.len()
            invariant
                i <= self.computation_signatures.len(),
                self@.len() == self.computation_signatures.len(),
                forall|j: int| 0 <= j < i ==> (#[trigger] self@[j]).name != name@,
            decreases self.computation_signatures.len() - i,
        {
            let rule = &self.computation_signatures[i];
            if rule.name == *name {
                assert(self@[i as int] == rule@);
                return Some(rule);
            }
            i += 1;
        }
        None
    }

    /// The names of the rules that conclude a fact of `family`, in the library's order.
    pub fn producers(&self, family: &String) -> (res: Vec<String>)
        ensures
            views(res@) == producers(self@, family@),
    {
        let ghost concludes = |rule: SignatureView| rule.ret == family@;
        let ghost name_of = |rule: SignatureView| rule.name;
        let rules = &self.computation_signatures;
        let mut res: Vec<String> = Vec::new();
        let mut i: usize = 0;
        proof {
            assert(views(rules@.take(0)) =~= Seq::empty());
            assert(Seq::<SignatureView>::empty().filter(concludes) =~= Seq::empty()) by {
                reveal(Seq::filter);
            }
            assert(views(res@) =~= producers(views(rules@.take(0)), family@));
        }
        while i < rules.len()
            invariant
                i <= rules.len(),
                concludes == |rule: SignatureView| rule.ret == family@,
                name_of == |rule: SignatureView| rule.name,
                views(res@) == views(rules@.take(i as int)).filter(concludes).map_values(name_of),
            decreases rules.len() - i,
        {
            proof {
                lemma_views_take(rules@, i as int);
                let seen = views(rules@.take(i as int));
                seen.lemma_filter_push(rules@[i as int]@, concludes);
                seen.filter(concludes).lemma_push_map_commute(name_of, rules@[i as int]@);
            }
            if rules[i].ret == *family {
                let name = rules[i].name.clone();
                proof {
                    lemma_views_push(res@, name);
                }
                res.push(name);
            }
            i += 1;
        }
        assert(rules@.take(i as int) =~= rules@);
        res
    }
}

} // verus!
