use derivation::fact::{Fact, Value};
use derivation::predicate::Predicate;
use derivation::tree::Tree;

fn s(text: &str) -> String {
    text.to_string()
}

fn paint(code: &str, text: &str) -> String {
    format!("\u{1b}[{}m{}\u{1b}[0m", code, text)
}

fn grey(text: &str) -> String {
    paint("38;5;8", text)
}

fn goal_heading(prefix: &str, name: &str) -> String {
    format!(
        "{} {} {} {}{}{}",
        paint("33", "•"),
        paint("33", prefix),
        paint("33", "[goal]"),
        grey("("),
        paint("33", name),
        grey(")")
    )
}

fn fact_heading(prefix: &str, fact: &str) -> String {
    format!("{} {} {} {}", paint("35", "•"), paint("34", prefix), paint("35", "[fact]"), grey(fact))
}

fn step_heading(prefix: &str, label: &str, fact: &str) -> String {
    format!(
        "{} {} {} {}",
        paint("32", "•"),
        paint("34", prefix),
        paint("32", &format!("[{}]", label)),
        grey(fact)
    )
}

fn step(label: &str, consequent: &str, antecedents: Vec<(&str, Tree)>) -> Tree {
    Tree::Step {
        label: s(label),
        antecedents: antecedents.into_iter().map(|(tag, tree)| (s(tag), tree)).collect(),
        consequent: Fact { name: s(consequent), args: vec![] },
        side_condition: Predicate { constraints: vec![] },
    }
}

#[test]
fn pretty_goal_is_one_yellow_line() {
    let text = Tree::Goal(s("J")).pretty().to_text();
    assert_eq!(text, format!("{}\n", goal_heading("", "J")));
    assert_eq!(
        text,
        "\u{1b}[33m•\u{1b}[0m \u{1b}[33m\u{1b}[0m \u{1b}[33m[goal]\u{1b}[0m \
         \u{1b}[38;5;8m(\u{1b}[0m\u{1b}[33mJ\u{1b}[0m\u{1b}[38;5;8m)\u{1b}[0m\n"
    );
}

#[test]
fn pretty_known_fact_shows_the_fact_in_grey() {
    let tree = Tree::Axiom(Fact { name: s("Len"), args: vec![(s("n"), Value::Int(3))] });
    assert_eq!(tree.pretty().to_text(), format!("{}\n", fact_heading("", "Len(n=3)")));
}

#[test]
fn pretty_step_draws_its_antecedents_as_branches() {
    let tree = step(
        "sort",
        "Sorted",
        vec![
            ("input", Tree::Axiom(Fact { name: s("List"), args: vec![] })),
            ("order", step("total", "Order", vec![("proof", Tree::Goal(s("Total")))])),
            ("last", step("end", "Last", vec![("proof", Tree::Goal(s("End")))])),
        ],
    );
    let expected = [
        format!("{}\n", step_heading("", "sort", "Sorted()")),
        format!("{}{}{}\n", grey("├"), grey("─"), fact_heading(".input", "List()")),
        format!("{}{}{}\n", grey("├"), grey("─"), step_heading(".order", "total", "Order()")),
        format!("{}{}{}{}{}\n", grey("│"), grey(" "), grey("└"), grey("─"), goal_heading(".proof", "Total")),
        format!("{}{}{}\n", grey("└"), grey("─"), step_heading(".last", "end", "Last()")),
        format!("{}{}{}{}{}\n", grey(" "), grey(" "), grey("└"), grey("─"), goal_heading(".proof", "End")),
    ]
    .concat();
    assert_eq!(tree.pretty().to_text(), expected);
}

#[test]
fn pretty_leaves_out_the_root_of_a_tree_built_from_a_goal() {
    let goal = Fact { name: s("Sorted"), args: vec![(s("n"), Value::Int(3))] };
    let tree = Tree::from_goal(&goal);
    assert_eq!(tree.pretty().to_text(), format!("{}\n", goal_heading(".output", "Sorted")));
}

#[test]
fn pretty_keeps_a_root_with_more_than_one_antecedent() {
    let tree = step("output", "&Goal", vec![("a", Tree::Goal(s("A"))), ("b", Tree::Goal(s("B")))]);
    let expected = [
        format!("{}\n", step_heading("", "output", "&Goal()")),
        format!("{}{}{}\n", grey("├"), grey("─"), goal_heading(".a", "A")),
        format!("{}{}{}\n", grey("└"), grey("─"), goal_heading(".b", "B")),
    ]
    .concat();
    assert_eq!(tree.pretty().to_text(), expected);
}

#[test]
fn pretty_keeps_a_root_that_concludes_another_family() {
    let tree = step("r", "Other", vec![("a", Tree::Goal(s("A")))]);
    let expected = [
        format!("{}\n", step_heading("", "r", "Other()")),
        format!("{}{}{}\n", grey("└"), grey("─"), goal_heading(".a", "A")),
    ]
    .concat();
    assert_eq!(tree.pretty().to_text(), expected);
}
