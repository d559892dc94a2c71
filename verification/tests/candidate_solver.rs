use rune_lock::activation::Activation;
use rune_lock::index::RunePosition;
use rune_lock::rule::{ActivationRuleKindHelpers, RuleKind};
use rune_lock::rune::Rune;
use rune_lock::solver::field_state::{ActivationSet, FieldState};
use rune_lock::solver::solver_state::{SolverState, SolverStateAction};
use rune_lock::solver::{
    DeduceWithAssumptionResult, DeductionIterationResult, ExploreResult, Solver, SolverError,
};
use rune_lock::solver_nodes::{
    SolverNodeAction, SolverNodeData, SolverNodeHandle, SolverNodeState, SolverNodes, SolverNodesError,
};
use rune_lock::RuneLock;

fn act(index: u8) -> Activation {
    Activation::new(index).unwrap()
}

fn pos(index: usize) -> RunePosition {
    RunePosition::new(index)
}

fn lock(rules: Vec<RuleKind>) -> RuneLock {
    RuneLock::new([0, 2, 1, 3, 2, 1, 3, 2, 1, 0, 2, 1].map(|it| Rune::new(it)), rules)
}

fn all() -> Vec<Activation> {
    (0..12).map(act).collect()
}

#[test]
fn activation_sets() {
    let mut set = ActivationSet::full();
    assert_eq!(set.len(), 12);
    assert_eq!(set.to_vec(), all());
    set.remove(act(3));
    set.remove(act(3));
    set.remove(act(11));
    assert_eq!(set.len(), 10);
    assert!(!set.contains(act(3)));
    assert!(set.contains(act(4)));
    assert_eq!(set.to_vec(), vec![act(0), act(1), act(2), act(4), act(5), act(6), act(7), act(8), act(9), act(10)]);
    assert_eq!(FieldState::Unsure(set).to_text(), "[#1 #2 #3 #5 #6 #7 #8 #9 #10 #11 ]");
    assert_eq!(FieldState::Assumed(act(4)).to_text(), "#5?");
    assert_eq!(FieldState::Deduced(act(4)).to_text(), "#5");
    assert_eq!(FieldState::Deduced(act(4)).fixed(), Some(act(4)));
    assert_eq!(FieldState::Unsure(set).fixed(), None);
}

#[test]
fn default_state_is_open() {
    let state = SolverState::default();
    assert!(matches!(state.action(), SolverStateAction::Default));
    for p in 0..12 {
        assert_eq!(state.possible_activations_of(pos(p)), all());
    }
    assert_eq!(state.possible_positions_of(act(7)), (0..12).map(pos).collect::<Vec<_>>());
    let fixed = state.fixed_assignments();
    assert!((0..12).all(|p| fixed.get(pos(p)).is_none()));
    assert!(state.to_text().starts_with(" 0: [#1 #2 #3 #4 #5 #6 #7 #8 #9 #10 #11 #12 ]\n 1: ["));
    assert!(state.to_text().ends_with("\n11: [#1 #2 #3 #4 #5 #6 #7 #8 #9 #10 #11 #12 ]\n"));
}

#[test]
fn assumption_is_fixed_and_pruned() {
    let lock = lock(vec![(5, 6).alwanese()]);
    let state = SolverState::default().with_assumed(&lock, pos(3), act(4)).unwrap();
    assert!(matches!(
        state.action(),
        SolverStateAction::Assume { activation, position } if activation == act(4) && position == pos(3)
    ));
    assert!(matches!(state.field(pos(3)), FieldState::Assumed(a) if a == act(4)));
    assert_eq!(state.fixed_assignments().get(pos(3)), Some(act(4)));
    assert!(state.possible_activations_of(pos(3)).is_empty());
    // activation 5 may only stand one or two steps after activation 4
    for p in (0..12).filter(|p| *p != 3) {
        let candidates = state.possible_activations_of(pos(p));
        assert!(!candidates.contains(&act(4)));
        assert_eq!(candidates.contains(&act(5)), [4, 5, 10, 11].contains(&p), "position {}", p);
        assert_eq!(candidates.len(), if [4, 5, 10, 11].contains(&p) { 11 } else { 10 });
    }
    assert_eq!(
        state.possible_positions_of(act(0)),
        (0..12).filter(|p| *p != 3).map(pos).collect::<Vec<_>>()
    );
}

#[test]
fn assumption_errors() {
    let lock = lock(vec![]);
    let state = SolverState::default().with_assumed(&lock, pos(3), act(4)).unwrap();
    assert!(matches!(
        state.with_assumed(&lock, pos(3), act(5)),
        Err(SolverError::AssumeAtOldAssumption { activation, new_position, old_assumption })
            if activation == act(5) && new_position == pos(3) && old_assumption == act(4)
    ));
    assert!(matches!(
        state.with_assumed(&lock, pos(6), act(4)),
        Err(SolverError::ActivationAlreadyAssumed { activation, new_position, old_position })
            if activation == act(4) && new_position == pos(6) && old_position == pos(3)
    ));
    // fix eleven positions: the twelfth is deduced
    let mut last = SolverState::default();
    for p in 0..10 {
        last = last.with_assumed(&lock, pos(p), act(p as u8)).unwrap();
    }
    let chain = match last.deduce_with_assumption(&lock, pos(10), act(10)) {
        Ok(DeduceWithAssumptionResult::Done(chain)) => chain,
        _ => panic!("expected a chain"),
    };
    assert_eq!(chain.len(), 2);
    assert!(matches!(chain[0].field(pos(11)), FieldState::Unsure(set) if set.to_vec() == vec![act(11)]));
    assert!(matches!(chain[1].field(pos(11)), FieldState::Deduced(a) if a == act(11)));
    assert!(matches!(
        chain[1].with_assumed(&lock, pos(11), act(0)),
        Err(SolverError::AssumeAtOldDeduction { activation, new_position, old_deduction })
            if activation == act(0) && new_position == pos(11) && old_deduction == act(11)
    ));
    let open = chain[0];
    assert!(matches!(
        open.ruled_out(pos(11), act(11)).with_assumed(&lock, pos(11), act(10)),
        Err(SolverError::ActivationAlreadyAssumed { .. })
    ));
    assert!(matches!(chain[1].deduce(&lock), DeductionIterationResult::Indecisive));
}

#[test]
fn deduction_rounds() {
    let open = lock(vec![]);
    let state = SolverState::default();
    assert!(matches!(state.deduce(&open), DeductionIterationResult::Indecisive));
    match state.deduce_with_assumption(&open, pos(0), act(0)) {
        Ok(DeduceWithAssumptionResult::Done(chain)) => assert_eq!(chain.len(), 1),
        _ => panic!("expected a chain"),
    }
    // activation 1 one or two steps after activation 0, and the other way round
    let impossible = lock(vec![(1, 2).alwanese(), (2, 1).alwanese()]);
    match state.deduce_with_assumption(&impossible, pos(0), act(0)) {
        Ok(DeduceWithAssumptionResult::Unsolvable { reason }) => {
            assert_eq!(reason, "#2 has no possible position left.")
        }
        _ => panic!("expected no solution"),
    }
    // a candidate struck from the only position an activation has
    let mut narrowed = SolverState::default();
    for p in 1..12 {
        narrowed = narrowed.ruled_out(pos(p), act(6));
    }
    match narrowed.deduce(&open) {
        DeductionIterationResult::MadeDeductions(after) => {
            assert!(matches!(after.field(pos(0)), FieldState::Deduced(a) if a == act(6)));
            assert!(matches!(after.action(), SolverStateAction::RuleOut { .. }));
            assert!(!after.possible_activations_of(pos(1)).contains(&act(6)));
            assert_eq!(after.possible_activations_of(pos(1)).len(), 11);
            assert!(matches!(
                after.with_assumed(&open, pos(3), act(6)),
                Err(SolverError::ActivationAlreadyDeduced { activation, new_position, old_position })
                    if activation == act(6) && new_position == pos(3) && old_position == pos(0)
            ));
        }
        _ => panic!("expected a deduction"),
    }
    // two activations that have the same single position
    let mut clash = narrowed;
    for p in 1..12 {
        clash = clash.ruled_out(pos(p), act(7));
    }
    match clash.deduce(&open) {
        DeductionIterationResult::Unsolvable { reason } => {
            assert_eq!(reason, "#8 has to be at 0, but that has been deduced to be #7")
        }
        _ => panic!("expected no solution"),
    }
}

#[test]
fn node_tree() {
    let (mut nodes, root) = SolverNodes::new(SolverState::default());
    assert_eq!(root, SolverNodeHandle(0));
    assert_eq!(nodes.parent_of(root), None);
    assert_eq!(nodes.get(root).deduction_chain.len(), 1);
    assert_eq!(nodes.get(root).state, SolverNodeState::Alive);
    assert!(matches!(nodes.get(root).action, SolverNodeAction::Root));
    let child = nodes.insert_child(
        root,
        SolverNodeData {
            deduction_chain: vec![SolverState::default()],
            action: SolverNodeAction::Assume { position: pos(2), activation: act(3) },
            state: SolverNodeState::Alive,
        },
    );
    assert_eq!(child, SolverNodeHandle(1));
    assert_eq!(nodes.parent_of(child), Some(root));
    assert_eq!(nodes.get_handle(1), Ok(child));
    assert_eq!(nodes.get_handle(2), Err(SolverNodesError::UnknownNode(2)));
    nodes.rule_out(root, pos(4), act(5));
    assert_eq!(nodes.get(root).deduction_chain.len(), 2);
    assert!(!nodes.get(root).deduction_chain[1].possible_activations_of(pos(4)).contains(&act(5)));
    assert_eq!(nodes.get(root).deduction_chain[0].possible_activations_of(pos(4)).len(), 12);
    assert_eq!(nodes.get(child).deduction_chain.len(), 1);
    nodes.set_state(child, SolverNodeState::Solved);
    assert_eq!(nodes.get(child).state, SolverNodeState::Solved);
    assert_eq!(nodes.get(root).state, SolverNodeState::Alive);
    assert_eq!(nodes.outline(), vec![(0, root), (1, child)]);
    assert_eq!(nodes.get(child).to_text(), "[✔] Assume 2 = #4");
    assert_eq!(nodes.get(root).to_text(), "[ ] Root");
}

#[test]
fn explore_branches_or_rules_out() {
    let open = lock(vec![]);
    let mut solver = Solver::new();
    assert_eq!(solver.current(), SolverNodeHandle(0));
    let outcome = solver.explore(&open, pos(0), act(0)).unwrap();
    assert!(matches!(outcome, ExploreResult::Indecisive));
    assert_eq!(
        outcome.to_text(),
        "This assignment leads to another unclear situation. More assumptions required."
    );
    assert_eq!(solver.current(), SolverNodeHandle(1));
    assert!(matches!(solver.peek().field(pos(0)), FieldState::Assumed(a) if a == act(0)));
    assert!(matches!(
        solver.explore(&open, pos(0), act(1)),
        Err(SolverError::AssumeAtOldAssumption { .. })
    ));
    assert_eq!(solver.nodes().get(SolverNodeHandle(0)).deduction_chain.len(), 1);
    assert!(solver.view(0).is_ok());
    assert_eq!(solver.view(7), Err(SolverNodesError::UnknownNode(7)));
    assert_eq!(solver.current(), SolverNodeHandle(0));

    let impossible = lock(vec![(1, 2).alwanese(), (2, 1).alwanese()]);
    let mut solver = Solver::new();
    let outcome = solver.explore(&impossible, pos(0), act(0)).unwrap();
    assert_eq!(
        outcome.to_text(),
        "This assignment turns out to be impossible. (#2 has no possible position left.)"
    );
    assert_eq!(solver.current(), SolverNodeHandle(0));
    assert_eq!(solver.nodes().get(SolverNodeHandle(0)).deduction_chain.len(), 2);
    assert!(!solver.peek().possible_activations_of(pos(0)).contains(&act(0)));
    assert!(matches!(
        solver.peek().action(),
        SolverStateAction::RuleOut { activation, position } if activation == act(0) && position == pos(0)
    ));
}

#[test]
fn trying_all_candidates() {
    let open = lock(vec![]);
    let mut solver = Solver::new();
    let mut notes = Vec::new();
    let outcome = solver.try_in_position(&open, pos(4), &mut notes).unwrap();
    assert!(matches!(outcome, ExploreResult::Indecisive));
    assert!(notes.is_empty());
    assert_eq!(solver.current(), SolverNodeHandle(1));
    assert!(matches!(
        solver.nodes().get(SolverNodeHandle(1)).action,
        SolverNodeAction::Assume { position, activation } if position == pos(4) && activation == act(0)
    ));
    let outcome = solver.try_activation(&open, act(1), &mut notes).unwrap();
    assert!(matches!(outcome, ExploreResult::Indecisive));
    assert_eq!(solver.current(), SolverNodeHandle(2));
    assert!(matches!(
        solver.nodes().get(SolverNodeHandle(2)).action,
        SolverNodeAction::Assume { position, activation } if position == pos(0) && activation == act(1)
    ));
    assert_eq!(
        solver.tree_lines(),
        vec![" - (0) [ ] Root", "   - (1) [ ] Assume 4 = #1", "     - (2) [ ] Assume 0 = #2"]
    );

    let impossible = lock(vec![(1, 2).alwanese(), (2, 1).alwanese()]);
    let mut solver = Solver::new();
    let mut notes = Vec::new();
    let outcome = solver.try_activation(&impossible, act(0), &mut notes).unwrap();
    assert!(matches!(
        &outcome,
        ExploreResult::Unsolvable { reason } if reason == "Activation #1 has no position it can be assigned to."
    ));
    assert_eq!(notes.len(), 12);
    assert_eq!(notes[0], "Assumption #1 in 0 is false: #2 has no possible position left.");
    assert_eq!(notes[11], "Assumption #1 in 11 is false: #2 has no possible position left.");
    // the root has no parent: the cursor stays, and the root is given up
    assert_eq!(solver.current(), SolverNodeHandle(0));
    assert_eq!(solver.nodes().get(SolverNodeHandle(0)).state, SolverNodeState::Unsolvable);
    assert_eq!(solver.nodes().get(SolverNodeHandle(0)).deduction_chain.len(), 13);
    assert!(solver.peek().possible_positions_of(act(0)).len() == 12);
    for p in 0..12 {
        assert!(!solver.peek().possible_activations_of(pos(p)).contains(&act(0)));
    }

    // below the root: the node is given up and its assumption struck at the parent
    let mut solver = Solver::new();
    let mut notes = Vec::new();
    assert!(matches!(solver.explore(&impossible, pos(5), act(7)), Ok(ExploreResult::Indecisive)));
    let outcome = solver.try_activation(&impossible, act(1), &mut notes).unwrap();
    assert!(matches!(
        &outcome,
        ExploreResult::Unsolvable { reason } if reason == "Activation #2 has no position it can be assigned to."
    ));
    assert_eq!(notes.len(), 11);
    assert_eq!(notes[5], "Assumption #2 in 6 is false: #1 has no possible position left.");
    assert_eq!(solver.current(), SolverNodeHandle(0));
    assert_eq!(solver.nodes().get(SolverNodeHandle(1)).state, SolverNodeState::Unsolvable);
    assert_eq!(solver.nodes().get(SolverNodeHandle(1)).deduction_chain.len(), 12);
    assert_eq!(solver.nodes().get(SolverNodeHandle(0)).deduction_chain.len(), 2);
    assert!(!solver.peek().possible_activations_of(pos(5)).contains(&act(7)));
    assert_eq!(solver.tree_lines(), vec![" - (0) [ ] Root", "   - (1) [✘] Assume 5 = #8"]);

    // the first candidates fail and are noted, the next one leads on
    let mut notes = Vec::new();
    let outcome = solver.try_in_position(&impossible, pos(0), &mut notes).unwrap();
    assert!(matches!(outcome, ExploreResult::Indecisive));
    assert_eq!(
        notes,
        vec![
            "Assumption #1 in 0 is false: #2 has no possible position left.",
            "Assumption #2 in 0 is false: #1 has no possible position left.",
        ]
    );
    assert_eq!(solver.current(), SolverNodeHandle(2));
    assert!(matches!(
        solver.nodes().get(SolverNodeHandle(2)).action,
        SolverNodeAction::Assume { position, activation } if position == pos(0) && activation == act(2)
    ));
    assert_eq!(solver.nodes().get(SolverNodeHandle(0)).deduction_chain.len(), 4);
}
