use rune_lock::activation::Activation;
use rune_lock::fact_solver::assumption_tree::{AssumptionTree, AssumptionTreeError, AssumptionTreeNodeHandle};
use rune_lock::fact_solver::explainer::{explain_fact, explain_fact_d, ExplanationEntry, ExplanationLine};
use rune_lock::fact_solver::fact_db::{FactDb, FactHandle};
use rune_lock::fact_solver::{
    ContradictionKind, Fact, FactKind, FactReason, FactualSolver, SolverAction, SolverStateState,
};
use rune_lock::index::RunePosition;
use rune_lock::rule::{ActivationRuleKindHelpers, RuleKind};
use rune_lock::rune::Rune;
use rune_lock::RuneLock;

fn act(index: u8) -> Activation {
    Activation::new(index).unwrap()
}

fn pos(index: usize) -> RunePosition {
    RunePosition::new(index)
}

fn lock(rules: Vec<RuleKind>) -> RuneLock {
    RuneLock::new([0, 2, 1, 3, 2, 1, 3, 2, 1, 0, 2, 1].map(|it| Rune::new(it)), rules)
}

fn kind_at(db: &FactDb, position: usize, activation: u8) -> Option<FactKind> {
    db.current(pos(position), act(activation)).map(|h| db.get(h).unwrap().kind())
}

fn texts(lines: &[ExplanationLine]) -> Vec<String> {
    lines.iter().map(|line| line.to_text()).collect()
}

#[test]
fn tree_grows_below_its_nodes() {
    let (mut tree, root) = AssumptionTree::new("root");
    assert_eq!(root, AssumptionTreeNodeHandle(0));
    assert_eq!(tree.len(), 1);
    assert_eq!(tree.parent_of(root), None);
    let a = tree.insert_child(root, "a");
    let b = tree.insert_child(root, "b");
    let c = tree.insert_child(a, "c");
    let d = tree.insert_child(root, "d");
    let e = tree.insert_child(c, "e");
    assert_eq!((a.0, b.0, c.0, d.0, e.0), (1, 2, 3, 4, 5));
    assert_eq!(tree.len(), 6);
    assert_eq!(tree.parent_of(c), Some(a));
    assert_eq!(tree.parent_of(d), Some(root));
    assert_eq!(*tree.get(c), "c");
    assert_eq!(tree.children_of(root), &vec![a, b, d]);
    assert_eq!(tree.children_of(a), &vec![c]);
    assert!(tree.children_of(b).is_empty());
    assert_eq!(tree.get_handle(5), Ok(e));
    assert_eq!(tree.get_handle(6), Err(AssumptionTreeError::UnknownNode(6)));
    assert_eq!(
        tree.outline(),
        vec![(0, root), (1, a), (2, c), (3, e), (1, b), (1, d)]
    );
}

#[test]
fn assumption_forces_slot_and_eliminates_the_rest() {
    let lock = lock(vec![]);
    let mut solver = FactualSolver::new(&lock);
    assert_eq!(solver.current().0, 0);
    assert_eq!(solver.peek().facts().num_facts(), 0);
    assert!(matches!(solver.peek().action(), SolverAction::Root));

    let outcome = solver.assume_on(Activation::from_human(1).unwrap(), pos(0));
    assert!(matches!(outcome, Some(SolverStateState::Unexplored)));
    assert_eq!(solver.current().0, 1);
    assert!(matches!(
        solver.peek().action(),
        SolverAction::Assume { position, activation } if position == pos(0) && activation == act(0)
    ));
    let db = solver.peek().facts();
    assert_eq!(kind_at(db, 0, 0), Some(FactKind::ActivationMustBeOn));
    for slot in 1..12 {
        assert_eq!(kind_at(db, slot, 0), Some(FactKind::ActivationCannotBeOn));
    }
    for handle in 0..db.num_facts() {
        assert!(!db.get(FactHandle::from_raw(handle)).unwrap().kind().is_contradiction());
    }
    assert_eq!(db.fixed_assignment().unwrap().get(pos(0)), Some(act(0)));
    assert_eq!(solver.fixed_assignment().unwrap().position_of(act(0)), Some(pos(0)));
    // the root still knows nothing
    let root = solver.get_tree_handle(0).unwrap();
    assert_eq!(solver.tree().get(root).facts().num_facts(), 0);
    assert_eq!(solver.tree().children_of(root), &vec![AssumptionTreeNodeHandle(1)]);
}

#[test]
fn second_value_at_same_slot_contradicts() {
    let lock = lock(vec![]);
    let mut solver = FactualSolver::new(&lock);
    assert!(matches!(solver.assume_on(act(0), pos(0)), Some(SolverStateState::Unexplored)));
    let outcome = solver.assume_on(act(1), pos(0));
    let handle = match outcome {
        Some(SolverStateState::Contradicts(h)) => h,
        other => panic!("expected a contradiction, got {:?}", other),
    };
    assert_eq!(handle, FactHandle::from_raw(24));
    assert_eq!(solver.current().0, 2);
    let db = solver.peek().facts();
    let contradiction = db.get(handle).unwrap();
    assert_eq!(
        contradiction.kind(),
        FactKind::Contradiction(ContradictionKind::ContradictingRequirements)
    );
    assert_eq!(contradiction.position(), pos(0));
    assert_eq!(contradiction.activation(), act(1));
    assert!(matches!(
        contradiction.reasons()[..],
        [FactReason::Fact(a, _), FactReason::Fact(b, _)]
            if a == FactHandle::from_raw(1) && b == FactHandle::from_raw(23)
    ));
    assert!(matches!(db.get(FactHandle::from_raw(23)).unwrap().reasons()[..], [FactReason::Assumption]));
    assert!(matches!(db.get(FactHandle::from_raw(0)).unwrap().reasons()[..], [FactReason::Assumption]));

    let lines = solver.explain(handle, 10);
    assert_eq!(
        texts(&lines),
        vec![
            "F24: #2 has contradicting facts regarding position 0",
            " -> F1: #2 cannot be on 0",
            "     -> F0: #1 must be on 0",
            "         -> Fact Assumed.",
            " -> F23: #2 must be on 0",
            "     -> Fact Assumed.",
        ]
    );
    let assumed = lines.iter().filter(|l| matches!(l.entry, ExplanationEntry::Assumption)).count();
    assert_eq!(assumed, 2);
    assert_eq!(lines.iter().map(|l| l.depth).collect::<Vec<_>>(), vec![0, 1, 2, 3, 1, 2]);

    // the first branch is untouched, and a dead node takes no assumption
    let first = solver.get_tree_handle(1).unwrap();
    assert_eq!(solver.tree().get(first).facts().num_facts(), 23);
    assert!(solver.assume_on(act(5), pos(5)).is_none());
    assert_eq!(solver.current().0, 2);
    assert_eq!(solver.tree().len(), 3);
    assert!(solver.try_possibilities(pos(3)).is_empty());
    assert_eq!(solver.tree().len(), 3);
}

#[test]
fn explanation_stops_at_depth_and_says_so() {
    let lock = lock(vec![]);
    let mut solver = FactualSolver::new(&lock);
    solver.assume_on(act(0), pos(0));
    solver.assume_on(act(1), pos(0));
    let handle = FactHandle::from_raw(24);
    assert_eq!(
        texts(&solver.explain(handle, 1)),
        vec![
            "F24: #2 has contradicting facts regarding position 0",
            " -> F1: #2 cannot be on 0",
            "     -> F0 ...",
            " -> F23: #2 must be on 0",
            "     -> Fact Assumed.",
        ]
    );
    let cut = solver.explain(handle, 0);
    assert_eq!(
        texts(&cut),
        vec![
            "F24: #2 has contradicting facts regarding position 0",
            " -> F1 ...",
            " -> F23 ...",
        ]
    );
    assert!(matches!(cut[1].entry, ExplanationEntry::Truncated(h) if h == FactHandle::from_raw(1)));
    for depth in 0..6 {
        for line in solver.explain(handle, depth) {
            assert!(line.depth <= depth + 1);
            match line.entry {
                ExplanationEntry::Facts { .. } => assert!(line.depth <= depth),
                ExplanationEntry::Truncated(_) => assert_eq!(line.depth, depth + 1),
                _ => {}
            }
        }
    }
    // with room enough nothing is truncated and every leaf is an assumption
    let full = solver.explain(handle, 3);
    assert!(full.iter().all(|l| !matches!(l.entry, ExplanationEntry::Truncated(_))));
    assert_eq!(
        texts(&solver.explain(FactHandle::from_raw(99), 3)),
        vec!["Unknown Fact: F99"]
    );
}

#[test]
fn facts_that_differ_only_in_position_are_explained_together() {
    let lock = lock(vec![(3, 4).alwanese()]);
    let mut db = FactDb::new(12, 12);
    for slot in 0..11 {
        let fact = Fact::new(
            FactKind::ActivationCannotBeOn,
            act(5),
            pos(slot),
            vec![FactReason::Assumption, FactReason::Rule(0), FactReason::Rule(4)],
        );
        assert!(db.integrate_and_consolidate(fact, &lock).is_ok());
    }
    let derived = db.current(pos(11), act(5)).unwrap();
    assert_eq!(derived, FactHandle::from_raw(11));
    assert_eq!(db.get(derived).unwrap().kind(), FactKind::ActivationMustBeOn);
    let lines = explain_fact(derived, &db, &lock);
    assert_eq!(
        texts(&lines),
        vec![
            "F11: #6 must be on 11",
            " -> F0, F1, F2, F3, F4, F5, F6, F7, F8, F9, F10: #6 cannot be on 0, 1, 2, 3, 4, 5, 6, 7, 8, 9, 10",
            "     -> Fact Assumed.",
            "     -> Rule 0: '#3 & #4 are Alwanese'",
            "     -> Rule 4",
        ]
    );
    match &lines[1].entry {
        ExplanationEntry::Facts { kind, activation, members } => {
            assert_eq!(*kind, FactKind::ActivationCannotBeOn);
            assert_eq!(*activation, act(5));
            assert_eq!(members.len(), 11);
            assert_eq!(members[10], (FactHandle::from_raw(10), pos(10)));
        }
        other => panic!("expected facts, got {:?}", other),
    }
    assert!(matches!(lines[3].entry, ExplanationEntry::Rule(0, Some(RuleKind::Alwanese { .. }))));
    assert!(matches!(lines[4].entry, ExplanationEntry::Rule(4, None)));
    assert_eq!(texts(&db.explain(derived, &lock, 0)), vec![
        "F11: #6 must be on 11",
        " -> F0 ...",
        " -> F1 ...",
        " -> F2 ...",
        " -> F3 ...",
        " -> F4 ...",
        " -> F5 ...",
        " -> F6 ...",
        " -> F7 ...",
        " -> F8 ...",
        " -> F9 ...",
        " -> F10 ...",
    ]);
    // the exclusions that follow from the requirement cite it, one by one
    let lines = explain_fact_d(db.current(pos(11), act(0)).unwrap(), &db, &lock, 1);
    assert_eq!(
        texts(&lines),
        vec!["F12: #1 cannot be on 11", " -> F11: #6 must be on 11", "     -> F0 ...", "     -> F1 ...",
             "     -> F2 ...", "     -> F3 ...", "     -> F4 ...", "     -> F5 ...", "     -> F6 ...",
             "     -> F7 ...", "     -> F8 ...", "     -> F9 ...", "     -> F10 ..."]
    );
}

#[test]
fn dangling_reason_is_named_unknown() {
    let lock = lock(vec![]);
    let mut db = FactDb::new(12, 12);
    let fact = Fact::new(
        FactKind::ActivationMustBeOn,
        act(2),
        pos(2),
        vec![FactReason::Fact(FactHandle::from_raw(77), rune_lock::fact_solver::DebugInfo { origin: "test" })],
    );
    assert!(db.integrate_and_consolidate(fact, &lock).is_ok());
    assert_eq!(
        texts(&db.explain(FactHandle::from_raw(0), &lock, 5)),
        vec!["F0: #3 must be on 2", " -> Unknown Fact: F77"]
    );
}

#[test]
fn try_possibilities_fans_out_and_returns() {
    let lock = lock(vec![]);
    let mut solver = FactualSolver::new(&lock);
    solver.assume_on(act(0), pos(0));
    let outcomes = solver.try_possibilities(pos(1));
    // activation 0 is taken, so eleven candidates are left for position 1
    assert_eq!(outcomes.len(), 11);
    assert!(outcomes.iter().all(|o| matches!(o, SolverStateState::Unexplored)));
    assert_eq!(solver.current().0, 1);
    assert_eq!(solver.tree().len(), 13);
    let parent = solver.get_tree_handle(1).unwrap();
    assert_eq!(
        solver.tree().children_of(parent),
        &(2..13).map(AssumptionTreeNodeHandle).collect::<Vec<_>>()
    );
    for (k, child) in (2..13).enumerate() {
        let handle = solver.get_tree_handle(child).unwrap();
        let state = solver.tree().get(handle);
        assert!(matches!(
            state.action(),
            SolverAction::Assume { position, activation }
                if position == pos(1) && activation == act(k as u8 + 1)
        ));
        assert_eq!(kind_at(state.facts(), 1, k as u8 + 1), Some(FactKind::ActivationMustBeOn));
        assert_eq!(solver.tree().parent_of(handle), Some(parent));
    }
    // by activation: the positions of its column
    let outcomes = solver.try_possibilities(act(3));
    assert_eq!(outcomes.len(), 11);
    assert_eq!(solver.tree().len(), 24);
    let handle = solver.get_tree_handle(13).unwrap();
    assert!(matches!(
        solver.tree().get(handle).action(),
        SolverAction::Assume { position, activation } if position == pos(1) && activation == act(3)
    ));
    // a position that is decided has nothing open
    assert!(solver.try_possibilities(pos(0)).is_empty());
    assert_eq!(solver.tree().len(), 24);
}

#[test]
fn cursor_moves_by_handle() {
    let lock = lock(vec![]);
    let mut solver = FactualSolver::new(&lock);
    solver.assume_on(act(0), pos(0));
    solver.assume_on(act(1), pos(1));
    assert_eq!(solver.current().0, 2);
    let first = solver.get_tree_handle(1).unwrap();
    solver.set_current(first);
    assert_eq!(solver.current().0, 1);
    solver.assume_on(act(2), pos(1));
    assert_eq!(solver.current().0, 3);
    assert_eq!(solver.tree().parent_of(solver.current()), Some(first));
    assert_eq!(solver.get_tree_handle(4), Err(AssumptionTreeError::UnknownNode(4)));
    assert_eq!(
        solver.tree_lines(),
        vec![
            " - (0) [ ], Root",
            "   - (1) [ ], Assume 0 = #1",
            "     - (2) [ ], Assume 1 = #2",
            "     - (3) [ ], Assume 1 = #3",
        ]
    );
}

#[test]
fn last_assumption_solves_the_lock() {
    let lock = lock(vec![]);
    let mut solver = FactualSolver::new(&lock);
    for slot in 0..10 {
        assert!(matches!(
            solver.assume_on(act(slot as u8), pos(slot)),
            Some(SolverStateState::Unexplored)
        ));
    }
    assert!(matches!(solver.assume_on(act(10), pos(10)), Some(SolverStateState::Solved)));
    let fixed = solver.peek().facts().fixed_assignment().unwrap();
    for slot in 0..12 {
        assert_eq!(fixed.get(pos(slot)), Some(act(slot as u8)));
    }
    assert!(solver.assume_on(act(0), pos(0)).is_none());
    assert_eq!(
        solver.tree_lines()[11],
        format!("{} - (11) [✔], Assume 10 = #11", " ".repeat(22))
    );
}

#[test]
fn rules_exclude_candidates_of_the_other_activation() {
    let lock = lock(vec![(1, 2).alwanese()]);
    let mut solver = FactualSolver::new(&lock);
    assert!(matches!(solver.assume_on(act(0), pos(0)), Some(SolverStateState::Unexplored)));
    let db = solver.peek().facts();
    assert_eq!(db.num_facts(), 30);
    for slot in 1..12 {
        let expected = if [1, 2, 7, 8].contains(&slot) { None } else { Some(FactKind::ActivationCannotBeOn) };
        assert_eq!(kind_at(db, slot, 1), expected, "position {}", slot);
    }
    let excluded = db.get(db.current(pos(3), act(1)).unwrap()).unwrap();
    assert!(matches!(
        excluded.reasons()[..],
        [FactReason::Fact(h, info), FactReason::Rule(0)]
            if h == FactHandle::from_raw(0) && info.origin == "consolidate_rules"
    ));
    assert_eq!(db.possibilities_for(act(1)), vec![pos(1), pos(2), pos(7), pos(8)]);
    assert_eq!(
        texts(&solver.explain(db.current(pos(3), act(1)).unwrap(), 10)),
        vec![
            "F23: #2 cannot be on 3",
            " -> Rule 0: '#1 & #2 are Alwanese'",
            " -> F0: #1 must be on 0",
            "     -> Fact Assumed.",
        ]
    );
    // the other direction: the second is given, the first is narrowed
    let mut solver = FactualSolver::new(&lock);
    solver.assume_on(act(1), pos(2));
    assert_eq!(
        solver.peek().facts().possibilities_for(act(0)),
        vec![pos(0), pos(1), pos(6), pos(7)]
    );
}

#[test]
fn rune_rule_narrows_the_following_activation() {
    let rule = RuleKind::RuneFollowsImmediately { first: Rune::new(0), second: Rune::new(1) };
    let lock = lock(vec![rule]);
    let mut solver = FactualSolver::new(&lock);
    solver.assume_on(act(3), pos(9));
    let db = solver.peek().facts();
    assert_eq!(db.possibilities_for(act(4)), vec![pos(2), pos(5), pos(8), pos(11)]);
    let excluded = db.get(db.current(pos(0), act(4)).unwrap()).unwrap();
    assert!(matches!(
        excluded.reasons()[..],
        [FactReason::Fact(_, info), FactReason::Rule(0)] if info.origin == "consolidate_rules runes"
    ));
    // on a position with another rune the rule says nothing
    let root = solver.get_tree_handle(0).unwrap();
    solver.set_current(root);
    solver.assume_on(act(3), pos(1));
    assert_eq!(solver.peek().facts().possibilities_for(act(4)).len(), 11);
    // the last activation on the first rune has nothing to follow it
    solver.set_current(root);
    let outcome = solver.assume_on(act(11), pos(0));
    let handle = match outcome {
        Some(SolverStateState::Contradicts(h)) => h,
        other => panic!("expected a contradiction, got {:?}", other),
    };
    assert_eq!(
        solver.peek().facts().get(handle).unwrap().kind(),
        FactKind::Contradiction(ContradictionKind::ContradictingRequirements)
    );
    assert_eq!(
        solver.tree_lines().last().unwrap().as_str(),
        "   - (3) [✘ (F24)], Assume 0 = #12"
    );
}
