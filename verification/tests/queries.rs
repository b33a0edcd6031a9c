use derivation::fact::{Fact, Value};
use derivation::predicate::{Atom, Constraint, Predicate, Relation};
use derivation::query::{Query, Sibling, GOAL_COMPUTATION_NAME, GOAL_FACT_NAME, RET};
use derivation::signature::{ComputationSignature, Library, Mode};
use derivation::tree::Tree;

fn s(text: &str) -> String {
    text.to_string()
}

fn path(tags: &[&str]) -> Vec<String> {
    tags.iter().map(|tag| s(tag)).collect()
}

fn goal(name: &str) -> Tree {
    Tree::Goal(s(name))
}

fn known(name: &str) -> Tree {
    Tree::Axiom(Fact { name: s(name), args: vec![] })
}

fn select(selector: &str, arg: &str) -> Atom {
    Atom::Select { selector: s(selector), arg: s(arg) }
}

fn constant(value: i64) -> Atom {
    Atom::Const(Value::Int(value))
}

fn constraint(relation: Relation, left: Atom, right: Atom) -> Constraint {
    Constraint { relation, left, right }
}

fn step_with(
    label: &str,
    antecedents: Vec<(&str, Tree)>,
    args: Vec<(&str, Value)>,
    constraints: Vec<Constraint>,
) -> Tree {
    Tree::Step {
        label: s(label),
        antecedents: antecedents.into_iter().map(|(tag, tree)| (s(tag), tree)).collect(),
        consequent: Fact {
            name: s("C"),
            args: args.into_iter().map(|(name, value)| (s(name), value)).collect(),
        },
        side_condition: Predicate { constraints },
    }
}

fn step(label: &str, antecedents: Vec<(&str, Tree)>) -> Tree {
    step_with(label, antecedents, vec![], vec![])
}

fn rule(name: &str, ret: &str) -> ComputationSignature {
    ComputationSignature {
        name: s(name),
        params: vec![],
        ret: s(ret),
        precondition: Predicate { constraints: vec![] },
    }
}

fn empty_library() -> Library {
    Library { computation_signatures: vec![] }
}

fn free_query(siblings: Vec<(&str, &str, Vec<&str>)>, constraints: Vec<Constraint>) -> Query {
    Query {
        computation_signature: ComputationSignature {
            name: s("&goal"),
            params: siblings.iter().map(|(tag, family, _)| (s(tag), s(family), Mode::Exists)).collect(),
            ret: s("&Goal"),
            precondition: Predicate { constraints },
        },
        siblings: siblings
            .into_iter()
            .map(|(tag, family, rules)| Sibling {
                tag: s(tag),
                fact_name: s(family),
                rules: rules.into_iter().map(s).collect(),
            })
            .collect(),
    }
}

#[test]
fn reserved_names() {
    assert_eq!(RET, "ret");
    assert_eq!(GOAL_FACT_NAME, "&Goal");
    assert_eq!(GOAL_COMPUTATION_NAME, "&goal");
}

#[test]
fn queries_of_a_step_with_known_antecedents_only_is_empty() {
    let tree = step("r", vec![("a", known("A")), ("b", known("B"))]);
    assert_eq!(tree.queries(&empty_library()), vec![]);
}

#[test]
fn queries_of_a_step_with_one_goal_names_it_as_the_sole_sibling() {
    let tree = step("r", vec![("a", goal("J")), ("b", known("B"))]);
    let queries = tree.queries(&empty_library());
    assert_eq!(queries, vec![(path(&[]), free_query(vec![("a", "J", vec![])], vec![]))]);
    assert_eq!(queries[0].1.siblings.len(), 1);
    assert!(!queries[0].1.closed());
}

#[test]
fn queries_merges_sibling_goals_into_one_query() {
    let tree = step("r", vec![("a", goal("A")), ("b", goal("B"))]);
    let queries = tree.queries(&empty_library());
    assert_eq!(
        queries,
        vec![(path(&[]), free_query(vec![("a", "A", vec![]), ("b", "B", vec![])], vec![]))]
    );
}

#[test]
fn queries_keeps_siblings_in_the_order_of_the_antecedents() {
    let tree = step("r", vec![("z", goal("Z")), ("m", known("M")), ("a", goal("A"))]);
    let queries = tree.queries(&empty_library());
    assert_eq!(
        queries,
        vec![(path(&[]), free_query(vec![("z", "Z", vec![]), ("a", "A", vec![])], vec![]))]
    );
}

#[test]
fn queries_of_a_leaf_is_empty() {
    assert_eq!(goal("A").queries(&empty_library()), vec![]);
    assert_eq!(known("A").queries(&empty_library()), vec![]);
}

#[test]
fn queries_of_a_step_without_antecedents_is_empty() {
    assert_eq!(step("r", vec![]).queries(&empty_library()), vec![]);
}

#[test]
fn queries_puts_the_tag_in_front_of_nested_paths() {
    let tree = step(
        "r",
        vec![
            ("a", step("q", vec![("b", step("p", vec![("c", goal("C"))])), ("d", goal("D"))])),
            ("e", known("E")),
        ],
    );
    let queries = tree.queries(&empty_library());
    assert_eq!(
        queries,
        vec![
            (path(&["a", "b"]), free_query(vec![("c", "C", vec![])], vec![])),
            (path(&["a"]), free_query(vec![("d", "D", vec![])], vec![])),
        ]
    );
}

#[test]
fn queries_lists_nested_queries_before_the_query_of_the_step() {
    let tree = step(
        "r",
        vec![
            ("g", goal("G")),
            ("a", step("q", vec![("b", goal("B"))])),
            ("c", step("p", vec![("d", goal("D"))])),
        ],
    );
    let queries = tree.queries(&empty_library());
    assert_eq!(
        queries,
        vec![
            (path(&["a"]), free_query(vec![("b", "B", vec![])], vec![])),
            (path(&["c"]), free_query(vec![("d", "D", vec![])], vec![])),
            (path(&[]), free_query(vec![("g", "G", vec![])], vec![])),
        ]
    );
}

#[test]
fn queries_paths_address_the_step_that_holds_the_goals() {
    let tree = step("r", vec![("a", step("q", vec![("b", goal("B"))]))]);
    let queries = tree.queries(&empty_library());
    let at = &queries[0].0;
    let solved = step("q", vec![("b", known("B"))]);
    let next = tree.replace(at, &solved).unwrap();
    assert!(next.complete());
    assert_eq!(next.queries(&empty_library()), vec![]);
}

#[test]
fn queries_substitutes_the_arguments_of_the_consequent() {
    let tree = step_with(
        "r",
        vec![("a", goal("A"))],
        vec![("n", Value::Int(5)), ("m", Value::Bool(false))],
        vec![
            constraint(Relation::Less, select("n", "a"), select("n", "ret")),
            constraint(Relation::Equal, select("m", "ret"), select("k", "ret")),
            constraint(Relation::Contains, select("n", "other"), constant(1)),
        ],
    );
    let queries = tree.queries(&empty_library());
    let expected = free_query(
        vec![("a", "A", vec![])],
        vec![
            constraint(Relation::Less, select("n", "a"), constant(5)),
            constraint(Relation::Equal, Atom::Const(Value::Bool(false)), select("k", "ret")),
            constraint(Relation::Contains, select("n", "other"), constant(1)),
        ],
    );
    assert_eq!(queries, vec![(path(&[]), expected)]);
}

#[test]
fn queries_substitutes_the_first_binding_of_a_parameter() {
    let tree = step_with(
        "r",
        vec![("a", goal("A"))],
        vec![("n", Value::Int(1)), ("n", Value::Int(2))],
        vec![constraint(Relation::LessOrEqual, select("n", "ret"), constant(9))],
    );
    let queries = tree.queries(&empty_library());
    let expected = free_query(
        vec![("a", "A", vec![])],
        vec![constraint(Relation::LessOrEqual, constant(1), constant(9))],
    );
    assert_eq!(queries, vec![(path(&[]), expected)]);
}

#[test]
fn queries_does_not_change_the_side_condition_of_the_tree() {
    let tree = step_with(
        "r",
        vec![("a", goal("A"))],
        vec![("n", Value::Int(5))],
        vec![constraint(Relation::Less, select("n", "a"), select("n", "ret"))],
    );
    let _ = tree.queries(&empty_library());
    let unchanged = step_with(
        "r",
        vec![("a", goal("A"))],
        vec![("n", Value::Int(5))],
        vec![constraint(Relation::Less, select("n", "a"), select("n", "ret"))],
    );
    assert_eq!(tree, unchanged);
}

#[test]
fn queries_names_the_rules_that_conclude_the_family_of_a_sibling() {
    let library = Library {
        computation_signatures: vec![rule("one", "A"), rule("two", "B"), rule("three", "A")],
    };
    let tree = step("r", vec![("x", goal("A")), ("y", goal("C"))]);
    let queries = tree.queries(&library);
    assert_eq!(
        queries,
        vec![(
            path(&[]),
            free_query(vec![("x", "A", vec!["one", "three"]), ("y", "C", vec![])], vec![])
        )]
    );
}

#[test]
fn free_query_has_the_siblings_as_parameters() {
    let library = Library { computation_signatures: vec![rule("one", "A")] };
    let side_condition = Predicate {
        constraints: vec![constraint(Relation::Equal, select("n", "x"), constant(1))],
    };
    let query = Query::free(&library, vec![(s("x"), s("A")), (s("y"), s("B"))], side_condition);
    let expected = free_query(
        vec![("x", "A", vec!["one"]), ("y", "B", vec![])],
        vec![constraint(Relation::Equal, select("n", "x"), constant(1))],
    );
    assert_eq!(query, expected);
    assert!(!query.closed());
}

#[test]
fn free_query_without_siblings_is_closed() {
    let query = Query::free(&empty_library(), vec![], Predicate::new());
    assert!(query.closed());
    assert_eq!(query, free_query(vec![], vec![]));
}

#[test]
fn from_fact_pins_every_argument() {
    let fact = Fact {
        name: s("Sorted"),
        args: vec![(s("len"), Value::Int(3)), (s("name"), Value::Str(s("xs")))],
    };
    let query = Query::from_fact(&fact, "output");
    let expected = Query {
        computation_signature: ComputationSignature {
            name: s("output"),
            params: vec![(s("output"), s("Sorted"), Mode::Exists)],
            ret: s("&Goal"),
            precondition: Predicate {
                constraints: vec![
                    constraint(Relation::Equal, select("len", "output"), constant(3)),
                    constraint(
                        Relation::Equal,
                        select("name", "output"),
                        Atom::Const(Value::Str(s("xs"))),
                    ),
                ],
            },
        },
        siblings: vec![],
    };
    assert_eq!(query, expected);
    assert!(query.closed());
    assert_eq!(query.clone(), expected);
}

#[test]
fn library_lookup_finds_the_first_rule_of_a_name() {
    let library = Library {
        computation_signatures: vec![rule("one", "A"), rule("two", "B"), rule("one", "C")],
    };
    assert_eq!(library.lookup(&s("one")), Some(&rule("one", "A")));
    assert_eq!(library.lookup(&s("two")), Some(&rule("two", "B")));
    assert_eq!(library.lookup(&s("three")), None);
    assert_eq!(empty_library().lookup(&s("one")), None);
}

#[test]
fn library_producers_are_listed_in_order() {
    let library = Library {
        computation_signatures: vec![rule("one", "A"), rule("two", "B"), rule("three", "A")],
    };
    assert_eq!(library.producers(&s("A")), vec![s("one"), s("three")]);
    assert_eq!(library.producers(&s("B")), vec![s("two")]);
    assert_eq!(library.producers(&s("C")), Vec::<String>::new());
}
