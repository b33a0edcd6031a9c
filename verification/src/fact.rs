//! Facts: instances of a named judgment, with a value bound to each parameter.

use vstd::prelude::*;
use crate::views::{lemma_views_push, lemma_views_take, views};

verus! {

/// The name of a judgment family.
pub type FactName = String;

/// A concrete value bound to a parameter of a fact.
#[derive(Debug, PartialEq, Eq)]
pub enum Value {
    Bool(bool),
    Int(i64),
    Str(String),
}

/// The mathematical model of a [`Value`].
pub enum ValueView {
    Bool(bool),
    Int(int),
    Str(Seq<char>),
}

impl View for Value {
    type V = ValueView;

    open spec fn view(&self) -> ValueView {
        match self {
            Value::Bool(b) => ValueView::Bool(*b),
            Value::Int(i) => ValueView::Int(*i as int),
            Value::Str(s) => ValueView::Str(s@),
        }
    }
}

impl Clone for Value {
    fn clone(&self) -> (res: Value)
        ensures
            res@ == self@,
    {
        match self {
            Value::Bool(b) => Value::Bool(*b),
            Value::Int(i) => Value::Int(*i),
            Value::Str(s) => Value::Str(s.clone()),
        }
    }
}

/// Copies an argument list: parameter names with their values.
pub fn clone_args(args: &Vec<(String, Value)>) -> (res: Vec<(String, Value)>)
    ensures
        views(res@) == views(args@),
{
    let mut res: Vec<(String, Value)> = Vec::new();
    let mut i: usize = 0;
    assert(views(res@) =~= views(args@.take(0)));
    while i < args.len()
        invariant
            i <= args.len(),
            views(res@) == views(args@.take(i as int)),
        decreases args.len() - i,
    {
        let entry = (args[i].0.clone(), args[i].1.clone());
        proof {
            lemma_views_push(res@, entry);
            lemma_views_take(args@, i as int);
        }
        res.push(entry);
        i += 1;
    }
    assert(args@.take(i as int) =~= args@);
    res
}

/// An instance of a judgment: its family and the value of each parameter, in order.
#[derive(Debug, PartialEq, Eq)]
pub struct Fact {
    pub name: FactName,
    pub args: Vec<(String, Value)>,
}

/// The mathematical model of a [`Fact`].
pub struct FactView {
    pub name: Seq<char>,
    pub args: Seq<(Seq<char>, ValueView)>,
}

impl View for Fact {
    type V = FactView;

    open spec fn view(&self) -> FactView {
        FactView { name: self.name@, args: views(self.args@) }
    }
}

impl Clone for Fact {
    fn clone(&self) -> (res: Fact)
        ensures
            res@ == self@,
    {
        Fact { name: self.name.clone(), args: clone_args(&self.args) }
    }
}

} // verus!
