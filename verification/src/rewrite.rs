//! Path-addressed rewriting: replacing a subtree and extending a side condition.
//!
//! A path is a sequence of antecedent tags, read from the root down; the empty
//! path addresses the node itself. Both operations follow a path in the same
//! way: at a step, the first segment selects every antecedent that carries it,
//! and the rest of the path is followed below each of them. A path that cannot
//! be followed is refused and nothing is rewritten.

use vstd::prelude::*;
use vstd::slice::slice_subrange;
use crate::predicate::{ConstraintView, Predicate};
use crate::tree::{ChildrenView, PathView, Tree, TreeError, TreeView};
use crate::views::views;

verus! {

impl TreeView {
    /// Whether one of `children` carries `tag`.
    pub open spec fn has_tag(children: ChildrenView, tag: Seq<char>) -> bool {
        exists|i: int| 0 <= i < children.len() && (#[trigger] children[i]).0 == tag
    }

    /// Why `path` cannot be followed from this node, or `None` if it can.
    ///
    /// A segment needs a step with at least one antecedent of that tag, and the
    /// rest of the path must be followable below every such antecedent; where
    /// several are not, the first of them in order decides the error. With
    /// `to_step`, the path must also end on a step.
    pub open spec fn path_error(self, path: PathView, to_step: bool) -> Option<TreeError>
        decreases path.len(), 0nat,
    {
        if path.len() == 0 {
            if to_step && !(self is Step) {
                Some(TreeError::PathNotAStep)
            } else {
                None
            }
        } else {
            match self {
                TreeView::Step { antecedents, .. } => {
                    if Self::has_tag(antecedents, path[0]) {
                        Self::first_error(antecedents, path[0], path.skip(1), to_step)
                    } else {
                        Some(TreeError::UnknownTag)
                    }
                },
                _ => Some(TreeError::PathNotAStep),
            }
        }
    }

    /// The error of the first of `children` that carries `tag` and below which `rest`
    /// cannot be followed, or `None` if there is no such child.
    pub open spec fn first_error(
        children: ChildrenView,
        tag: Seq<char>,
        rest: PathView,
        to_step: bool,
    ) -> Option<TreeError>
        decreases rest.len(), children.len() + 1,
    {
        if children.len() == 0 {
            None
        } else if children[0].0 == tag && children[0].1.path_error(rest, to_step) is Some {
            children[0].1.path_error(rest, to_step)
        } else {
            Self::first_error(children.skip(1), tag, rest, to_step)
        }
    }

    /// This tree with `subtree` in place of every node that `path` addresses.
    pub open spec fn replaced(self, path: PathView, subtree: TreeView) -> TreeView
        decreases path.len(),
    {
        if path.len() == 0 {
            subtree
        } else {
            match self {
                TreeView::Step { label, antecedents, consequent, side_condition } => TreeView::Step {
                    label,
                    antecedents: antecedents.map_values(
                        |child: (Seq<char>, TreeView)|
                            if child.0 == path[0] {
                                (child.0, child.1.replaced(path.skip(1), subtree))
                            } else {
                                child
                            },
                    ),
                    consequent,
                    side_condition,
                },
                _ => self,
            }
        }
    }

    /// This tree with `extra` appended to the side condition of every step that `path` addresses.
    pub open spec fn with_side_condition(self, path: PathView, extra: Seq<ConstraintView>) -> TreeView
        decreases path.len(),
    {
        match self {
            TreeView::Step { label, antecedents, consequent, side_condition } => {
                if path.len() == 0 {
                    TreeView::Step {
                        label,
                        antecedents,
                        consequent,
                        side_condition: side_condition + extra,
                    }
                } else {
                    TreeView::Step {
                        label,
                        antecedents: antecedents.map_values(
                            |child: (Seq<char>, TreeView)|
                                if child.0 == path[0] {
                                    (child.0, child.1.with_side_condition(path.skip(1), extra))
                                } else {
                                    child
                                },
                        ),
                        consequent,
                        side_condition,
                    }
                }
            },
            _ => self,
        }
    }

    /// Below a step, a replacement changes exactly the antecedents that carry the first segment.
    pub proof fn lemma_replaced_step(self, path: PathView, subtree: TreeView)
        requires
            self is Step,
            path.len() > 0,
        ensures
            self.replaced(path, subtree) is Step,
            self.replaced(path, subtree)->label == self->label,
            self.replaced(path, subtree)->consequent == self->consequent,
            self.replaced(path, subtree)->side_condition == self->side_condition,
            self.replaced(path, subtree)->antecedents.len() == self->antecedents.len(),
            forall|i: int|
                0 <= i < self->antecedents.len() ==> #[trigger] self.replaced(
                    path,
                    subtree,
                )->antecedents[i] == if self->antecedents[i].0 == path[0] {
                    (self->antecedents[i].0, self->antecedents[i].1.replaced(path.skip(1), subtree))
                } else {
                    self->antecedents[i]
                },
    {
        reveal_with_fuel(TreeView::replaced, 2);
    }

    /// Below a step, an extension changes exactly the antecedents that carry the first segment.
    pub proof fn lemma_with_side_condition_step(self, path: PathView, extra: Seq<ConstraintView>)
        requires
            self is Step,
            path.len() > 0,
        ensures
            self.with_side_condition(path, extra) is Step,
            self.with_side_condition(path, extra)->label == self->label,
            self.with_side_condition(path, extra)->consequent == self->consequent,
            self.with_side_condition(path, extra)->side_condition == self->side_condition,
            self.with_side_condition(path, extra)->antecedents.len() == self->antecedents.len(),
            forall|i: int|
                0 <= i < self->antecedents.len() ==> #[trigger] self.with_side_condition(
                    path,
                    extra,
                )->antecedents[i] == if self->antecedents[i].0 == path[0] {
                    (
                        self->antecedents[i].0,
                        self->antecedents[i].1.with_side_condition(path.skip(1), extra),
                    )
                } else {
                    self->antecedents[i]
                },
    {
        reveal_with_fuel(TreeView::with_side_condition, 2);
    }
}

impl Tree {
    /// Returns a copy of this tree in which `subtree` stands in place of every node that
    /// `path` addresses. Where several antecedents of a step carry the same tag, all of
    /// them are descended into. A path that cannot be followed is refused:
    /// [`TreeError::PathNotAStep`] where it goes on below an axiom or a goal,
    /// [`TreeError::UnknownTag`] where no antecedent carries the next segment.
    pub fn replace(&self, path: &[String], subtree: &Tree) -> (res: Result<Tree, TreeError>)
        ensures
            match res {
                Ok(tree) => self@.path_error(views(path@), false) is None && tree@ == self@.replaced(
                    views(path@),
                    subtree@,
                ),
                Err(error) => self@.path_error(views(path@), false) == Some(error),
            },
        decreases path@.len(),
    {
        if path.len() == 0 {
            return Ok(subtree.clone());
        }
        match self {
            Tree::Step { label, antecedents, consequent, side_condition } => {
                let tag = &path[0];
                let rest = slice_subrange(path, 1, path.len());
                let ghost children = views(antecedents@);
                let ghost target = self@.replaced(views(path@), subtree@);
                let ghost wanted = target->antecedents;
                proof {
                    self.lemma_step_view();
                    assert(rest@ =~= path@.skip(1));
                    assert(views(rest@) =~= views(path@).skip(1));
                    self@.lemma_replaced_step(views(path@), subtree@);
                    assert(children.skip(0) =~= children);
                }
                let mut rewritten: Vec<(String, Tree)> = Vec::new();
                let mut found = false;
                let mut i: usize = 0;
                while i < antecedents.len()
                    invariant
                        i <= antecedents.len(),
                        rewritten@.len() == i,
                        children == views(antecedents@),
                        rest@.len() < path@.len(),
                        wanted.len() == children.len(),
                        forall|j: int|
                            0 <= j < children.len() ==> #[trigger] wanted[j] == if children[j].0
                                == tag@ {
                                (children[j].0, children[j].1.replaced(views(rest@), subtree@))
                            } else {
                                children[j]
                            },
                        forall|j: int| 0 <= j < i ==> (#[trigger] rewritten@[j])@ == wanted[j],
                        found <==> exists|j: int| 0 <= j < i && (#[trigger] children[j]).0 == tag@,
                        self@.path_error(views(path@), false) == if TreeView::has_tag(children, tag@) {
                            TreeView::first_error(children, tag@, views(rest@), false)
                        } else {
                            Some(TreeError::UnknownTag)
                        },
                        TreeView::first_error(children, tag@, views(rest@), false)
                            == TreeView::first_error(children.skip(i as int), tag@, views(rest@), false),
                    decreases antecedents.len() - i,
                {
                    proof {
                        assert(children.skip(i as int).skip(1) =~= children.skip(i + 1));
                        assert(children.skip(i as int)[0] == children[i as int]);
                    }
                    let child = &antecedents[i];
                    if child.0 == *tag {
                        match child.1.replace(rest, subtree) {
                            Ok(tree) => {
                                rewritten.push((child.0.clone(), tree));
                            },
                            Err(error) => {
                                assert(children[i as int].0 == tag@);
                                return Err(error);
                            },
                        }
                        found = true;
                        assert(children[i as int].0 == tag@);
                    } else {
                        rewritten.push((child.0.clone(), child.1.clone()));
                    }
                    i += 1;
                }
                if !found {
                    return Err(TreeError::UnknownTag);
                }
                let res = Tree::Step {
                    label: label.clone(),
                    antecedents: rewritten,
                    consequent: consequent.clone(),
                    side_condition: side_condition.clone(),
                };
                proof {
                    res.lemma_step_view();
                    assert(views(res->antecedents@) =~= target->antecedents);
                }
                Ok(res)
            },
            _ => Err(TreeError::PathNotAStep),
        }
    }

    /// Returns a copy of this tree in which the constraints of `additional_condition` are
    /// appended, in their order and without merging, to the side condition of every step
    /// that `path` addresses. The path is followed as in [`Tree::replace`], and it must
    /// end on a step: on an axiom or a goal it is refused with [`TreeError::PathNotAStep`].
    pub fn add_side_condition(&self, path: &[String], additional_condition: &Predicate) -> (res: Result<
        Tree,
        TreeError,
    >)
        ensures
            match res {
                Ok(tree) => self@.path_error(views(path@), true) is None
                    && tree@ == self@.with_side_condition(views(path@), additional_condition@),
                Err(error) => self@.path_error(views(path@), true) == Some(error),
            },
        decreases path@.len(),
    {
        match self {
            Tree::Step { label, antecedents, consequent, side_condition } => {
                proof {
                    self.lemma_step_view();
                }
                if path.len() == 0 {
                    let kept = self.clone();
                    match kept {
                        Tree::Step { label, antecedents, consequent, side_condition } => {
                            let res = Tree::Step {
                                label,
                                antecedents,
                                consequent,
                                side_condition: side_condition.concat(additional_condition),
                            };
                            proof {
                                kept.lemma_step_view();
                                res.lemma_step_view();
                            }
                            return Ok(res);
                        },
                        _ => {
                            return Err(TreeError::PathNotAStep);
                        },
                    }
                }
                let tag = &path[0];
                let rest = slice_subrange(path, 1, path.len());
                let ghost children = views(antecedents@);
                let ghost target = self@.with_side_condition(views(path@), additional_condition@);
                let ghost wanted = target->antecedents;
                proof {
                    assert(rest@ =~= path@.skip(1));
                    assert(views(rest@) =~= views(path@).skip(1));
                    self@.lemma_with_side_condition_step(views(path@), additional_condition@);
                    assert(children.skip(0) =~= children);
                }
                let mut rewritten: Vec<(String, Tree)> = Vec::new();
                let mut found = false;
                let mut i: usize = 0;
                while i < antecedents.len()
                    invariant
                        i <= antecedents.len(),
                        rewritten@.len() == i,
                        children == views(antecedents@),
                        rest@.len() < path@.len(),
                        wanted.len() == children.len(),
                        forall|j: int|
                            0 <= j < children.len() ==> #[trigger] wanted[j] == if children[j].0
                                == tag@ {
                                (
                                    children[j].0,
                                    children[j].1.with_side_condition(
                                        views(rest@),
                                        additional_condition@,
                                    ),
                                )
                            } else {
                                children[j]
                            },
                        forall|j: int| 0 <= j < i ==> (#[trigger] rewritten@[j])@ == wanted[j],
                        found <==> exists|j: int| 0 <= j < i && (#[trigger] children[j]).0 == tag@,
                        self@.path_error(views(path@), true) == if TreeView::has_tag(children, tag@) {
                            TreeView::first_error(children, tag@, views(rest@), true)
                        } else {
                            Some(TreeError::UnknownTag)
                        },
                        TreeView::first_error(children, tag@, views(rest@), true)
                            == TreeView::first_error(children.skip(i as int), tag@, views(rest@), true),
                    decreases antecedents.len() - i,
                {
                    proof {
                        assert(children.skip(i as int).skip(1) =~= children.skip(i + 1));
                        assert(children.skip(i as int)[0] == children[i as int]);
                    }
                    let child = &antecedents[i];
                    if child.0 == *tag {
                        match child.1.add_side_condition(rest, additional_condition) {
                            Ok(tree) => {
                                rewritten.push((child.0.clone(), tree));
                            },
                            Err(error) => {
                                assert(children[i as int].0 == tag@);
                                return Err(error);
                            },
                        }
                        found = true;
                        assert(children[i as int].0 == tag@);
                    } else {
                        rewritten.push((child.0.clone(), child.1.clone()));
                    }
                    i += 1;
                }
                if !found {
                    return Err(TreeError::UnknownTag);
                }
                let res = Tree::Step {
                    label: label.clone(),
                    antecedents: rewritten,
                    consequent: consequent.clone(),
                    side_condition: side_condition.clone(),
                };
                proof {
                    res.lemma_step_view();
                    assert(views(res->antecedents@) =~= target->antecedents);
                }
                Ok(res)
            },
            _ => Err(TreeError::PathNotAStep),
        }
    }
}

} // verus!
