use derivation::fact::{Fact, Value};
use derivation::predicate::{Atom, Constraint, Predicate, Relation};
use derivation::tree::{Tree, TreeError};

fn s(text: &str) -> String {
    text.to_string()
}

fn path(tags: &[&str]) -> Vec<String> {
    tags.iter().map(|tag| s(tag)).collect()
}

fn goal(name: &str) -> Tree {
    Tree::Goal(s(name))
}

fn known(name: &str) -> Tree {
    Tree::Axiom(Fact { name: s(name), args: vec![(s("n"), Value::Int(1))] })
}

fn equal(selector: &str, arg: &str, value: i64) -> Constraint {
    Constraint {
        relation: Relation::Equal,
        left: Atom::Select { selector: s(selector), arg: s(arg) },
        right: Atom::Const(Value::Int(value)),
    }
}

fn step_with(label: &str, antecedents: Vec<(&str, Tree)>, constraints: Vec<Constraint>) -> Tree {
    Tree::Step {
        label: s(label),
        antecedents: antecedents.into_iter().map(|(tag, tree)| (s(tag), tree)).collect(),
        consequent: Fact { name: s("C"), args: vec![] },
        side_condition: Predicate { constraints },
    }
}

fn step(label: &str, antecedents: Vec<(&str, Tree)>) -> Tree {
    step_with(label, antecedents, vec![])
}

fn paths_of(tree: &Tree) -> Vec<Vec<String>> {
    let mut paths: Vec<Vec<String>> = tree.postorder().into_iter().map(|(path, _)| path).collect();
    paths.sort();
    paths.dedup();
    paths
}

#[test]
fn replace_with_empty_path_replaces_the_node() {
    assert_eq!(goal("A").replace(&[], &known("X")), Ok(known("X")));
    let tree = step("r", vec![("a", goal("A"))]);
    assert_eq!(tree.replace(&[], &goal("B")), Ok(goal("B")));
    assert_eq!(known("A").replace(&[], &known("A")), Ok(known("A")));
}

#[test]
fn replace_descends_into_the_tagged_antecedent() {
    let tree = step("r", vec![("a", goal("A")), ("b", goal("B"))]);
    let replaced = tree.replace(&path(&["b"]), &known("X"));
    assert_eq!(replaced, Ok(step("r", vec![("a", goal("A")), ("b", known("X"))])));
}

#[test]
fn replace_keeps_label_consequent_and_side_condition() {
    let tree = Tree::Step {
        label: s("r"),
        antecedents: vec![(s("a"), goal("A"))],
        consequent: Fact { name: s("Out"), args: vec![(s("k"), Value::Str(s("v")))] },
        side_condition: Predicate { constraints: vec![equal("k", "ret", 2)] },
    };
    let expected = Tree::Step {
        label: s("r"),
        antecedents: vec![(s("a"), known("X"))],
        consequent: Fact { name: s("Out"), args: vec![(s("k"), Value::Str(s("v")))] },
        side_condition: Predicate { constraints: vec![equal("k", "ret", 2)] },
    };
    assert_eq!(tree.replace(&path(&["a"]), &known("X")), Ok(expected));
}

#[test]
fn replace_follows_the_path_from_the_front() {
    let tree = step(
        "r",
        vec![("a", step("q", vec![("b", goal("B")), ("c", goal("C"))])), ("b", goal("D"))],
    );
    let replaced = tree.replace(&path(&["a", "b"]), &known("X"));
    let expected = step(
        "r",
        vec![("a", step("q", vec![("b", known("X")), ("c", goal("C"))])), ("b", goal("D"))],
    );
    assert_eq!(replaced, Ok(expected));
    assert_eq!(tree.replace(&path(&["b", "a"]), &known("X")), Err(TreeError::PathNotAStep));
}

#[test]
fn replace_rewrites_every_antecedent_that_carries_the_tag() {
    let tree = step("r", vec![("a", goal("A")), ("b", goal("B")), ("a", goal("C"))]);
    let replaced = tree.replace(&path(&["a"]), &known("X"));
    assert_eq!(replaced, Ok(step("r", vec![("a", known("X")), ("b", goal("B")), ("a", known("X"))])));
}

#[test]
fn replace_reports_a_tag_that_no_antecedent_carries() {
    let tree = step("r", vec![("a", goal("A"))]);
    assert_eq!(tree.replace(&path(&["z"]), &known("X")), Err(TreeError::UnknownTag));
    let nested = step("r", vec![("a", step("q", vec![("b", goal("B"))]))]);
    assert_eq!(nested.replace(&path(&["a", "z"]), &known("X")), Err(TreeError::UnknownTag));
    assert_eq!(step("r", vec![]).replace(&path(&["a"]), &known("X")), Err(TreeError::UnknownTag));
}

#[test]
fn replace_reports_a_path_that_goes_on_below_a_leaf() {
    assert_eq!(goal("A").replace(&path(&["a"]), &known("X")), Err(TreeError::PathNotAStep));
    assert_eq!(known("A").replace(&path(&["a"]), &known("X")), Err(TreeError::PathNotAStep));
    let tree = step("r", vec![("a", goal("A"))]);
    assert_eq!(tree.replace(&path(&["a", "b"]), &known("X")), Err(TreeError::PathNotAStep));
}

#[test]
fn replace_reports_the_error_of_the_first_antecedent_that_fails() {
    let leaf_first = step("r", vec![("a", goal("A")), ("a", step("q", vec![]))]);
    assert_eq!(leaf_first.replace(&path(&["a", "b"]), &known("X")), Err(TreeError::PathNotAStep));
    let step_first = step("r", vec![("a", step("q", vec![])), ("a", goal("A"))]);
    assert_eq!(step_first.replace(&path(&["a", "b"]), &known("X")), Err(TreeError::UnknownTag));
    let good_first = step("r", vec![("a", step("q", vec![("b", goal("B"))])), ("a", goal("A"))]);
    assert_eq!(good_first.replace(&path(&["a", "b"]), &known("X")), Err(TreeError::PathNotAStep));
}

#[test]
fn replace_leaves_the_tree_as_it_was() {
    let tree = step("r", vec![("a", goal("A"))]);
    let _ = tree.replace(&path(&["a"]), &known("X"));
    assert_eq!(tree, step("r", vec![("a", goal("A"))]));
}

#[test]
fn replace_then_look_again_finds_the_subtree() {
    let tree = step(
        "r",
        vec![("a", step("q", vec![("b", goal("B")), ("c", goal("C"))])), ("d", goal("D"))],
    );
    let subtree = step("new", vec![("x", goal("X"))]);
    let target = path(&["a", "b"]);
    let replaced = tree.replace(&target, &subtree).unwrap();
    let found: Vec<&Tree> = replaced
        .postorder()
        .into_iter()
        .filter(|(at, _)| *at == target)
        .map(|(_, node)| node)
        .collect();
    assert_eq!(found, vec![&subtree]);
}

#[test]
fn replace_by_the_same_subtree_keeps_the_paths() {
    let inner = step("q", vec![("b", goal("B")), ("c", known("C"))]);
    let tree = step("r", vec![("a", inner.clone()), ("d", goal("D"))]);
    let replaced = tree.replace(&path(&["a"]), &inner).unwrap();
    assert_eq!(paths_of(&replaced), paths_of(&tree));
    assert_eq!(replaced, tree);
    let deeper = tree.replace(&path(&["a", "c"]), &known("C")).unwrap();
    assert_eq!(paths_of(&deeper), paths_of(&tree));
}

#[test]
fn replace_with_duplicate_tags_can_change_the_paths() {
    let first = goal("A");
    let tree = step("r", vec![("a", first.clone()), ("a", step("q", vec![("b", goal("B"))]))]);
    let replaced = tree.replace(&path(&["a"]), &first).unwrap();
    assert_eq!(paths_of(&tree), vec![path(&[]), path(&["a"]), path(&["a", "b"])]);
    assert_eq!(paths_of(&replaced), vec![path(&[]), path(&["a"])]);
}

#[test]
fn replacements_at_paths_that_part_ways_commute() {
    let tree = step(
        "r",
        vec![
            ("a", step("q", vec![("b", goal("B")), ("c", goal("C"))])),
            ("a", step("p", vec![("b", goal("D")), ("c", goal("E"))])),
            ("d", goal("F")),
        ],
    );
    let one = tree.replace(&path(&["a", "b"]), &known("X")).unwrap().replace(&path(&["a", "c"]), &known("Y"));
    let other = tree.replace(&path(&["a", "c"]), &known("Y")).unwrap().replace(&path(&["a", "b"]), &known("X"));
    assert_eq!(one, other);
    let expected = step(
        "r",
        vec![
            ("a", step("q", vec![("b", known("X")), ("c", known("Y"))])),
            ("a", step("p", vec![("b", known("X")), ("c", known("Y"))])),
            ("d", goal("F")),
        ],
    );
    assert_eq!(one, Ok(expected));
    let across = tree.replace(&path(&["d"]), &known("Z")).unwrap().replace(&path(&["a", "b"]), &known("X"));
    let back = tree.replace(&path(&["a", "b"]), &known("X")).unwrap().replace(&path(&["d"]), &known("Z"));
    assert_eq!(across, back);
}

#[test]
fn add_side_condition_appends_in_order_without_merging() {
    let tree = step_with("r", vec![("a", goal("A"))], vec![equal("n", "a", 1), equal("m", "a", 2)]);
    let extra = Predicate { constraints: vec![equal("m", "a", 2), equal("k", "a", 3)] };
    let extended = tree.add_side_condition(&[], &extra);
    let expected = step_with(
        "r",
        vec![("a", goal("A"))],
        vec![equal("n", "a", 1), equal("m", "a", 2), equal("m", "a", 2), equal("k", "a", 3)],
    );
    assert_eq!(extended, Ok(expected));
}

#[test]
fn add_side_condition_with_nothing_to_add_changes_nothing() {
    let tree = step_with("r", vec![("a", goal("A"))], vec![equal("n", "a", 1)]);
    let extended = tree.add_side_condition(&[], &Predicate::new());
    assert_eq!(extended, Ok(step_with("r", vec![("a", goal("A"))], vec![equal("n", "a", 1)])));
}

#[test]
fn add_side_condition_follows_the_path_from_the_front() {
    let tree = step_with(
        "r",
        vec![
            ("a", step_with("q", vec![("b", step_with("p", vec![], vec![equal("n", "x", 1)]))], vec![])),
            ("b", step("other", vec![])),
        ],
        vec![equal("n", "a", 0)],
    );
    let extra = Predicate { constraints: vec![equal("k", "x", 9)] };
    let extended = tree.add_side_condition(&path(&["a", "b"]), &extra);
    let expected = step_with(
        "r",
        vec![
            (
                "a",
                step_with(
                    "q",
                    vec![("b", step_with("p", vec![], vec![equal("n", "x", 1), equal("k", "x", 9)]))],
                    vec![],
                ),
            ),
            ("b", step("other", vec![])),
        ],
        vec![equal("n", "a", 0)],
    );
    assert_eq!(extended, Ok(expected));
}

#[test]
fn add_side_condition_extends_every_antecedent_that_carries_the_tag() {
    let tree = step("r", vec![("a", step("p", vec![])), ("a", step("q", vec![]))]);
    let extra = Predicate { constraints: vec![equal("k", "x", 9)] };
    let extended = tree.add_side_condition(&path(&["a"]), &extra);
    let expected = step(
        "r",
        vec![
            ("a", step_with("p", vec![], vec![equal("k", "x", 9)])),
            ("a", step_with("q", vec![], vec![equal("k", "x", 9)])),
        ],
    );
    assert_eq!(extended, Ok(expected));
}

#[test]
fn add_side_condition_needs_a_step_at_the_end_of_the_path() {
    let extra = Predicate { constraints: vec![equal("k", "x", 9)] };
    assert_eq!(goal("A").add_side_condition(&[], &extra), Err(TreeError::PathNotAStep));
    assert_eq!(known("A").add_side_condition(&[], &extra), Err(TreeError::PathNotAStep));
    let tree = step("r", vec![("a", goal("A"))]);
    assert_eq!(tree.add_side_condition(&path(&["a"]), &extra), Err(TreeError::PathNotAStep));
    assert_eq!(tree.add_side_condition(&path(&["a", "b"]), &extra), Err(TreeError::PathNotAStep));
    assert_eq!(goal("A").add_side_condition(&path(&["a"]), &extra), Err(TreeError::PathNotAStep));
}

#[test]
fn add_side_condition_reports_a_tag_that_no_antecedent_carries() {
    let extra = Predicate { constraints: vec![equal("k", "x", 9)] };
    let tree = step("r", vec![("a", step("q", vec![]))]);
    assert_eq!(tree.add_side_condition(&path(&["z"]), &extra), Err(TreeError::UnknownTag));
    assert_eq!(tree.add_side_condition(&path(&["a", "z"]), &extra), Err(TreeError::UnknownTag));
}
