use derivation::{Atom, ComputationSignature, Constraint, Fact, Library, Mode, Predicate, Relation, Tree, Value};

fn s(text: &str) -> String {
    text.to_string()
}

fn path(tags: &[&str]) -> Vec<String> {
    tags.iter().map(|tag| s(tag)).collect()
}

fn sort_rule() -> ComputationSignature {
    ComputationSignature {
        name: s("sort"),
        params: vec![(s("input"), s("List"), Mode::Exists)],
        ret: s("Sorted"),
        precondition: Predicate {
            constraints: vec![Constraint {
                relation: Relation::Equal,
                left: Atom::Select { selector: s("len"), arg: s("input") },
                right: Atom::Select { selector: s("len"), arg: s("ret") },
            }],
        },
    }
}

#[test]
fn a_session_refines_the_tree_until_it_is_complete() {
    let library = Library { computation_signatures: vec![sort_rule()] };
    let goal = Fact { name: s("Sorted"), args: vec![(s("len"), Value::Int(2))] };

    let start = Tree::from_goal(&goal);
    assert!(!start.complete());
    let first = start.queries(&library);
    assert_eq!(first.len(), 1);
    assert_eq!(first[0].0, path(&[]));
    assert_eq!(first[0].1.siblings.len(), 1);
    assert_eq!(first[0].1.siblings[0].tag, "output");
    assert_eq!(first[0].1.siblings[0].fact_name, "Sorted");
    assert_eq!(first[0].1.siblings[0].rules, vec![s("sort")]);

    let applied = Tree::from_computation_signature(&sort_rule(), vec![(s("len"), Value::Int(2))]);
    let refined = start.replace(&path(&["output"]), &applied).unwrap();
    assert!(!refined.complete());
    let second = refined.queries(&library);
    assert_eq!(second.len(), 1);
    assert_eq!(second[0].0, path(&["output"]));
    assert_eq!(second[0].1.siblings[0].tag, "input");
    assert_eq!(
        second[0].1.computation_signature.precondition,
        Predicate {
            constraints: vec![Constraint {
                relation: Relation::Equal,
                left: Atom::Select { selector: s("len"), arg: s("input") },
                right: Atom::Const(Value::Int(2)),
            }],
        }
    );

    let extra = Predicate {
        constraints: vec![Constraint {
            relation: Relation::Less,
            left: Atom::Const(Value::Int(0)),
            right: Atom::Select { selector: s("len"), arg: s("input") },
        }],
    };
    let constrained = refined.add_side_condition(&second[0].0, &extra).unwrap();
    let third = constrained.queries(&library);
    assert_eq!(third[0].1.computation_signature.precondition.constraints.len(), 2);

    let list = Tree::Axiom(Fact { name: s("List"), args: vec![(s("len"), Value::Int(2))] });
    let mut at = second[0].0.clone();
    at.push(s("input"));
    let done = constrained.replace(&at, &list).unwrap();
    assert!(done.complete());
    assert_eq!(done.queries(&library), vec![]);
    assert_eq!(done.postorder().len(), 3);
    assert_eq!(
        done.to_text(),
        "-- &Goal() [output]\n---- <output>: Sorted(len=2) [sort]\n------ <input>: List(len=2) [&axiom]"
    );
}
