use derivation::fact::{clone_args, Fact, Value};
use derivation::predicate::{Atom, Constraint, Predicate, Relation};
use derivation::signature::{ComputationSignature, Mode};

fn s(text: &str) -> String {
    text.to_string()
}

fn select(selector: &str, arg: &str) -> Atom {
    Atom::Select { selector: s(selector), arg: s(arg) }
}

fn constant(value: i64) -> Atom {
    Atom::Const(Value::Int(value))
}

fn equal(left: Atom, right: Atom) -> Constraint {
    Constraint { relation: Relation::Equal, left, right }
}

#[test]
fn atom_substitute_replaces_the_selected_parameter_only() {
    let atom = select("n", "ret");
    assert_eq!(atom.substitute(&s("n"), &s("ret"), &Value::Int(7)), constant(7));
    assert_eq!(atom.substitute(&s("m"), &s("ret"), &Value::Int(7)), select("n", "ret"));
    assert_eq!(atom.substitute(&s("n"), &s("a"), &Value::Int(7)), select("n", "ret"));
    assert_eq!(constant(1).substitute(&s("n"), &s("ret"), &Value::Int(7)), constant(1));
}

#[test]
fn atom_substitute_all_applies_the_bindings_in_order() {
    let bindings = vec![(s("m"), Value::Int(1)), (s("n"), Value::Int(2)), (s("n"), Value::Int(3))];
    assert_eq!(select("n", "ret").substitute_all(&s("ret"), &bindings), constant(2));
    assert_eq!(select("m", "ret").substitute_all(&s("ret"), &bindings), constant(1));
    assert_eq!(select("k", "ret").substitute_all(&s("ret"), &bindings), select("k", "ret"));
    assert_eq!(select("n", "a").substitute_all(&s("ret"), &bindings), select("n", "a"));
    assert_eq!(select("n", "ret").substitute_all(&s("ret"), &vec![]), select("n", "ret"));
}

#[test]
fn constraint_substitute_all_rewrites_both_sides() {
    let constraint = Constraint {
        relation: Relation::Less,
        left: select("n", "ret"),
        right: select("m", "ret"),
    };
    let bindings = vec![(s("m"), Value::Int(1)), (s("n"), Value::Int(2))];
    let expected = Constraint { relation: Relation::Less, left: constant(2), right: constant(1) };
    assert_eq!(constraint.substitute_all(&s("ret"), &bindings), expected);
}

#[test]
fn predicate_substitute_all_keeps_order_and_length() {
    let predicate = Predicate {
        constraints: vec![
            equal(select("n", "ret"), constant(0)),
            equal(select("n", "a"), select("n", "ret")),
            equal(select("n", "ret"), constant(0)),
        ],
    };
    let bindings = vec![(s("n"), Value::Str(s("v")))];
    let value = || Atom::Const(Value::Str(s("v")));
    let expected = Predicate {
        constraints: vec![
            equal(value(), constant(0)),
            equal(select("n", "a"), value()),
            equal(value(), constant(0)),
        ],
    };
    assert_eq!(predicate.substitute_all(&s("ret"), &bindings), expected);
}

#[test]
fn predicate_concat_keeps_duplicates() {
    let left = Predicate {
        constraints: vec![equal(select("n", "a"), constant(1)), equal(select("m", "a"), constant(2))],
    };
    let right = Predicate {
        constraints: vec![equal(select("m", "a"), constant(2)), equal(select("n", "a"), constant(1))],
    };
    let expected = Predicate {
        constraints: vec![
            equal(select("n", "a"), constant(1)),
            equal(select("m", "a"), constant(2)),
            equal(select("m", "a"), constant(2)),
            equal(select("n", "a"), constant(1)),
        ],
    };
    assert_eq!(left.concat(&right), expected);
    assert_eq!(Predicate::new().concat(&left), left);
    assert_eq!(left.concat(&Predicate::new()), left);
}

#[test]
fn predicate_new_is_empty() {
    assert_eq!(Predicate::new(), Predicate { constraints: vec![] });
}

#[test]
fn clones_are_equal_to_what_they_copy() {
    let fact = Fact {
        name: s("F"),
        args: vec![(s("a"), Value::Bool(true)), (s("b"), Value::Int(-4)), (s("c"), Value::Str(s("x")))],
    };
    assert_eq!(fact.clone(), fact);
    assert_eq!(clone_args(&fact.args), fact.args);
    let predicate = Predicate { constraints: vec![equal(select("n", "a"), constant(1))] };
    assert_eq!(predicate.clone(), predicate);
    let rule = ComputationSignature {
        name: s("r"),
        params: vec![(s("a"), s("A"), Mode::Exists), (s("b"), s("B"), Mode::ForAll)],
        ret: s("C"),
        precondition: predicate,
    };
    assert_eq!(rule.clone(), rule);
}
