use derivation::fact::{Fact, Value};
use derivation::predicate::Predicate;
use derivation::text::decimal_text;
use derivation::tree::Tree;

fn s(text: &str) -> String {
    text.to_string()
}

fn fact(name: &str, args: Vec<(&str, Value)>) -> Fact {
    Fact { name: s(name), args: args.into_iter().map(|(name, value)| (s(name), value)).collect() }
}

fn step(label: &str, consequent: Fact, antecedents: Vec<(&str, Tree)>) -> Tree {
    Tree::Step {
        label: s(label),
        antecedents: antecedents.into_iter().map(|(tag, tree)| (s(tag), tree)).collect(),
        consequent,
        side_condition: Predicate { constraints: vec![] },
    }
}

#[test]
fn decimal_text_of_small_numbers() {
    assert_eq!(decimal_text(0), "0");
    assert_eq!(decimal_text(7), "7");
    assert_eq!(decimal_text(10), "10");
    assert_eq!(decimal_text(109), "109");
    assert_eq!(decimal_text(-1), "-1");
    assert_eq!(decimal_text(-4200), "-4200");
}

#[test]
fn decimal_text_at_the_ends_of_the_range() {
    assert_eq!(decimal_text(i64::MAX), "9223372036854775807");
    assert_eq!(decimal_text(i64::MIN), "-9223372036854775808");
    assert_eq!(decimal_text(i64::MIN + 1), "-9223372036854775807");
}

#[test]
fn decimal_text_agrees_with_the_standard_library() {
    for value in [-1000i64, -99, -10, -9, 1, 9, 99, 100, 101, 123456789, -987654321] {
        assert_eq!(decimal_text(value), value.to_string());
    }
}

#[test]
fn value_to_text() {
    assert_eq!(Value::Bool(true).to_text(), "true");
    assert_eq!(Value::Bool(false).to_text(), "false");
    assert_eq!(Value::Int(-12).to_text(), "-12");
    assert_eq!(Value::Str(s("a b")).to_text(), "\"a b\"");
    assert_eq!(Value::Str(s("")).to_text(), "\"\"");
}

#[test]
fn fact_to_text() {
    assert_eq!(fact("Unit", vec![]).to_text(), "Unit()");
    assert_eq!(fact("Len", vec![("n", Value::Int(3))]).to_text(), "Len(n=3)");
    assert_eq!(
        fact("F", vec![("a", Value::Bool(true)), ("b", Value::Str(s("x"))), ("c", Value::Int(0))]).to_text(),
        "F(a=true, b=\"x\", c=0)"
    );
}

#[test]
fn make_dashes_gives_two_dashes_for_each_level() {
    assert_eq!(Tree::make_dashes(0), "");
    assert_eq!(Tree::make_dashes(1), "--");
    assert_eq!(Tree::make_dashes(3), "------");
}

#[test]
fn leaf_to_text() {
    assert_eq!(Tree::Goal(s("Sorted")).to_text(), "-- *** Sorted");
    assert_eq!(Tree::Axiom(fact("Len", vec![("n", Value::Int(3))])).to_text(), "-- Len(n=3) [&axiom]");
}

#[test]
fn step_to_text_indents_its_antecedents() {
    let tree = step(
        "sort",
        fact("Sorted", vec![("n", Value::Int(2))]),
        vec![
            ("input", Tree::Axiom(fact("List", vec![]))),
            (
                "order",
                step("total", fact("Order", vec![]), vec![("proof", Tree::Goal(s("Total")))]),
            ),
            ("last", Tree::Goal(s("Last"))),
        ],
    );
    let expected = "-- Sorted(n=2) [sort]\n\
                    ---- <input>: List() [&axiom]\n\
                    ---- <order>: Order() [total]\n\
                    ------ <proof>: *** Total\n\
                    ---- <last>: *** Last";
    assert_eq!(tree.to_text(), expected);
}

#[test]
fn step_without_antecedents_to_text_is_one_line() {
    assert_eq!(step("unit", fact("Unit", vec![]), vec![]).to_text(), "-- Unit() [unit]");
}
