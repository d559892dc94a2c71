use rune_lock::activation::Activation;
use rune_lock::fact_solver::fact_db::{FactDb, FactError, FactHandle, SingleFactIntegrationResult};
use rune_lock::fact_solver::view::{ChooseView, ViewAxis};
use rune_lock::fact_solver::{ContradictionKind, Fact, FactKind, FactReason};
use rune_lock::index::RunePosition;
use rune_lock::rule::RuleKind;
use rune_lock::rune::Rune;
use rune_lock::RuneLock;

fn act(index: u8) -> Activation {
    Activation::new(index).unwrap()
}

fn pos(index: usize) -> RunePosition {
    RunePosition::new(index)
}

fn plain_lock(rules: Vec<RuleKind>) -> RuneLock {
    RuneLock::new([0, 2, 1, 3, 2, 1, 3, 2, 1, 0, 2, 1].map(|it| Rune::new(it)), rules)
}

fn cannot(position: usize, activation: u8) -> Fact {
    Fact::new(FactKind::ActivationCannotBeOn, act(activation), pos(position), vec![FactReason::Assumption])
}

fn must(position: usize, activation: u8) -> Fact {
    Fact::new(FactKind::ActivationMustBeOn, act(activation), pos(position), vec![FactReason::Assumption])
}

fn kind_at(db: &FactDb, position: usize, activation: u8) -> Option<FactKind> {
    db.current(pos(position), act(activation)).map(|h| db.get(h).unwrap().kind())
}

#[test]
fn test_axis_lanes() {
    //We have 3 runes and 9 activations.
    let db = FactDb::new(3, 9);

    //Lookup 2nd Rune 7th Activation
    let rune_2_activation_7 = db.current(pos(2), act(7));
    assert_eq!(rune_2_activation_7, None);

    //Lookup Activations for Rune 1 (Should be 9 long)
    let activations_for_rune = db.lane(<RunePosition as ChooseView>::axis(), 1);
    assert_eq!(activations_for_rune.len(), 9);

    //Lookup Runes for Activation 1 (Should be 3 long)
    let runes_for_activation = db.lane(<Activation as ChooseView>::axis(), 1);
    assert_eq!(runes_for_activation.len(), 3);

    //Iterate Runes with their activations
    //Index is the rune, collection is of activations
    let activations_for_rune: Vec<_> = (0..db.num_positions())
        .map(|rune| (rune, db.lane(ViewAxis::Position, rune)))
        .collect();
    assert_eq!(activations_for_rune.len(), 3);
    assert_eq!(activations_for_rune[0].1.len(), 9);

    //Iterate Activations with their runes
    //Index is the activation, collection is of runes
    let runes_for_activation: Vec<_> = (0..db.num_activations())
        .map(|activation| (activation, db.lane(ViewAxis::Activation, activation)))
        .collect();
    assert_eq!(runes_for_activation.len(), 9);
    assert_eq!(runes_for_activation[0].1.len(), 3);
}

#[test]
fn test_indexed_iter() {
    let db = FactDb::new(3, 9);

    let mut seen = Vec::new();
    for a in 0..db.num_positions() {
        for b in 0..db.num_activations() {
            assert_eq!(db.current(pos(a), act(b as u8)), None);
            seen.push((a, b));
        }
    }
    assert_eq!(seen.len(), 27);
    assert_eq!(seen[0], (0, 0));
    assert_eq!(seen[9], (1, 0));
    assert_eq!(seen[26], (2, 8));
}

#[test]
fn new_database_is_empty() {
    let db = FactDb::new(12, 12);
    assert_eq!(db.num_positions(), 12);
    assert_eq!(db.num_activations(), 12);
    assert_eq!(db.num_facts(), 0);
    assert!(db.get(FactHandle::from_raw(0)).is_none());
    assert!(db.givens().is_empty());
    assert_eq!(db.possibilities_for(pos(3)).len(), 12);
    assert_eq!(db.possibilities_for(act(3)).len(), 12);
}

#[test]
fn single_fact_into_empty_cell() {
    let mut db = FactDb::new(12, 12);
    let outcome = db.integrate_single_fact(must(4, 7));
    assert_eq!(outcome, SingleFactIntegrationResult::Integrated(FactHandle::from_raw(0)));
    assert_eq!(db.num_facts(), 1);
    assert_eq!(db.current(pos(4), act(7)), Some(FactHandle::from_raw(0)));
    assert_eq!(kind_at(&db, 4, 7), Some(FactKind::ActivationMustBeOn));
    // the lanes of the two axes meet in the cell
    assert_eq!(db.lane(ViewAxis::Position, 4)[7], Some(FactHandle::from_raw(0)));
    assert_eq!(db.lane(ViewAxis::Activation, 7)[4], Some(FactHandle::from_raw(0)));
    assert_eq!(db.lane(ViewAxis::Activation, 4)[7], None);
}

#[test]
fn same_strength_is_unchanged() {
    let mut db = FactDb::new(12, 12);
    db.integrate_single_fact(cannot(1, 1));
    let outcome = db.integrate_single_fact(cannot(1, 1));
    assert_eq!(outcome, SingleFactIntegrationResult::Unchanged(FactHandle::from_raw(0)));
    assert_eq!(db.num_facts(), 1);
}

#[test]
fn collision_writes_both_and_cites_both() {
    let mut db = FactDb::new(12, 12);
    db.integrate_single_fact(cannot(1, 1));
    let outcome = db.integrate_single_fact(must(1, 1));
    assert_eq!(outcome, SingleFactIntegrationResult::Integrated(FactHandle::from_raw(2)));
    assert_eq!(db.num_facts(), 3);
    assert_eq!(db.current(pos(1), act(1)), Some(FactHandle::from_raw(2)));
    let contradiction = db.get(FactHandle::from_raw(2)).unwrap();
    assert_eq!(
        contradiction.kind(),
        FactKind::Contradiction(ContradictionKind::ContradictingRequirements)
    );
    let cited: Vec<FactHandle> = contradiction
        .reasons()
        .iter()
        .map(|r| match r {
            FactReason::Fact(h, _) => *h,
            other => panic!("unexpected reason {:?}", other),
        })
        .collect();
    assert_eq!(cited, vec![FactHandle::from_raw(0), FactHandle::from_raw(1)]);
    assert_eq!(db.get(FactHandle::from_raw(1)).unwrap().kind(), FactKind::ActivationMustBeOn);
}

#[test]
fn contradiction_is_never_replaced() {
    let mut db = FactDb::new(12, 12);
    let dead = Fact::new(
        FactKind::Contradiction(ContradictionKind::NoOptionsLeft),
        act(5),
        pos(5),
        vec![],
    );
    assert_eq!(
        db.integrate_single_fact(dead),
        SingleFactIntegrationResult::Integrated(FactHandle::from_raw(0))
    );
    for incoming in [
        must(5, 5),
        cannot(5, 5),
        Fact::new(
            FactKind::Contradiction(ContradictionKind::ContradictingRequirements),
            act(5),
            pos(5),
            vec![],
        ),
    ] {
        assert_eq!(
            db.integrate_single_fact(incoming),
            SingleFactIntegrationResult::Unchanged(FactHandle::from_raw(0))
        );
        assert_eq!(db.current(pos(5), act(5)), Some(FactHandle::from_raw(0)));
        assert_eq!(db.num_facts(), 1);
    }
    // and consolidation leaves it alone as well
    let lock = plain_lock(vec![]);
    let _ = db.integrate_and_consolidate(must(0, 0), &lock);
    assert_eq!(db.current(pos(5), act(5)), Some(FactHandle::from_raw(0)));
}

#[test]
fn new_contradiction_replaces_weaker_fact() {
    let mut db = FactDb::new(12, 12);
    db.integrate_single_fact(must(2, 3));
    let dead = Fact::new(
        FactKind::Contradiction(ContradictionKind::NoOptionsLeft),
        act(3),
        pos(2),
        vec![],
    );
    assert_eq!(
        db.integrate_single_fact(dead),
        SingleFactIntegrationResult::Integrated(FactHandle::from_raw(1))
    );
    assert_eq!(db.current(pos(2), act(3)), Some(FactHandle::from_raw(1)));
}

#[test]
fn requirement_excludes_row_and_column() {
    let lock = plain_lock(vec![]);
    let mut db = FactDb::new(12, 12);
    assert!(db.integrate_and_consolidate(must(0, 0), &lock).is_ok());
    assert_eq!(db.num_facts(), 23);
    assert_eq!(kind_at(&db, 0, 0), Some(FactKind::ActivationMustBeOn));
    for other in 1..12 {
        assert_eq!(kind_at(&db, other, 0), Some(FactKind::ActivationCannotBeOn));
        assert_eq!(kind_at(&db, 0, other as u8), Some(FactKind::ActivationCannotBeOn));
        let exclusion = db.get(db.current(pos(other), act(0)).unwrap()).unwrap();
        assert_eq!(exclusion.reasons().len(), 1);
        assert!(matches!(exclusion.reasons()[0], FactReason::Fact(h, _) if h == FactHandle::from_raw(0)));
    }
    assert_eq!(kind_at(&db, 1, 1), None);
    // the first pass goes by positions, so the row comes first
    assert_eq!(db.get(FactHandle::from_raw(1)).unwrap().position().index(), 0);
    assert_eq!(db.get(FactHandle::from_raw(1)).unwrap().activation().index(), 1);
    assert_eq!(db.get(FactHandle::from_raw(12)).unwrap().position().index(), 1);
    assert_eq!(db.get(FactHandle::from_raw(12)).unwrap().activation().index(), 0);

    let fixed = db.fixed_assignment().unwrap();
    assert_eq!(fixed.get(pos(0)), Some(act(0)));
    assert_eq!(fixed.get(pos(1)), None);
    assert_eq!(fixed.position_of(act(0)), Some(pos(0)));

    assert_eq!(db.givens(), vec![((pos(0), act(0)), FactHandle::from_raw(0))]);
    assert!(db.possibilities_for(pos(0)).is_empty());
    assert!(db.possibilities_for(act(0)).is_empty());
    assert_eq!(db.possibilities_for(pos(1)), (1..12).map(act).collect::<Vec<_>>());
    assert_eq!(db.possibilities_for(act(1)), (1..12).map(pos).collect::<Vec<_>>());
}

#[test]
fn consolidating_again_changes_nothing() {
    let lock = plain_lock(vec![]);
    let mut db = FactDb::new(12, 12);
    assert!(db.integrate_and_consolidate(must(3, 4), &lock).is_ok());
    let facts = db.num_facts();
    assert!(db.consolidate(&lock).is_ok());
    assert_eq!(db.num_facts(), facts);
    assert!(db.integrate_and_consolidate(must(3, 4), &lock).is_ok());
    assert_eq!(db.num_facts(), facts);
    assert!(db.integrate_and_consolidate(cannot(3, 5), &lock).is_ok());
    assert_eq!(db.num_facts(), facts);
}

#[test]
fn last_candidate_of_a_position_is_required() {
    let lock = plain_lock(vec![]);
    let mut db = FactDb::new(12, 12);
    for value in 0..11u8 {
        assert!(db.integrate_and_consolidate(cannot(6, value), &lock).is_ok());
        if value < 10 {
            assert_eq!(db.num_facts(), value as usize + 1);
        }
    }
    assert_eq!(kind_at(&db, 6, 11), Some(FactKind::ActivationMustBeOn));
    let derived = db.get(db.current(pos(6), act(11)).unwrap()).unwrap();
    let cited: Vec<FactHandle> = derived
        .reasons()
        .iter()
        .map(|r| match r {
            FactReason::Fact(h, _) => *h,
            other => panic!("unexpected reason {:?}", other),
        })
        .collect();
    assert_eq!(cited, (0..11).map(FactHandle::from_raw).collect::<Vec<_>>());
    // and the activation is then excluded everywhere else
    for other in 0..12 {
        if other != 6 {
            assert_eq!(kind_at(&db, other, 11), Some(FactKind::ActivationCannotBeOn));
        }
    }
    assert_eq!(db.num_facts(), 11 + 1 + 11);
    assert_eq!(db.fixed_assignment().unwrap().get(pos(6)), Some(act(11)));
}

#[test]
fn position_without_candidates_is_a_dead_end() {
    let lock = plain_lock(vec![]);
    let mut db = FactDb::new(1, 1);
    let outcome = db.integrate_and_consolidate(cannot(0, 0), &lock);
    let handle = match outcome {
        Err(FactError::Contradiction(h)) => h,
        Ok(_) => panic!("a position without candidates must not pass"),
    };
    assert_eq!(handle, FactHandle::from_raw(1));
    let dead = db.get(handle).unwrap();
    assert_eq!(dead.kind(), FactKind::Contradiction(ContradictionKind::NoOptionsLeft));
    assert_eq!(db.current(pos(0), act(0)), Some(handle));
    assert!(matches!(dead.reasons()[..], [FactReason::Fact(h, _)] if h == FactHandle::from_raw(0)));
}

#[test]
fn candidates_of_a_position_run_out() {
    let lock = plain_lock(vec![]);
    let mut db = FactDb::new(12, 12);
    // position 1 may hold 0 or 10, position 2 may hold 0 or 11, position 5 may hold 10 or 11
    for value in 1..12u8 {
        if value != 10 {
            assert!(db.integrate_and_consolidate(cannot(1, value), &lock).is_ok());
        }
        if value != 11 {
            assert!(db.integrate_and_consolidate(cannot(2, value), &lock).is_ok());
        }
    }
    for value in 0..10u8 {
        assert!(db.integrate_and_consolidate(cannot(5, value), &lock).is_ok());
    }
    assert_eq!(db.num_facts(), 30);
    assert_eq!(db.possibilities_for(pos(5)), vec![act(10), act(11)]);
    // activation 0 goes to position 3: positions 1 and 2 are forced, and 5 has nothing left
    let outcome = db.integrate_and_consolidate(must(3, 0), &lock);
    let handle = match outcome {
        Err(FactError::Contradiction(h)) => h,
        Ok(_) => panic!("position 5 has no candidate left"),
    };
    let dead = db.get(handle).unwrap();
    assert_eq!(dead.kind(), FactKind::Contradiction(ContradictionKind::NoOptionsLeft));
    assert_eq!(dead.position().index(), 5);
    assert_eq!(dead.activation().index(), 0);
    assert_eq!(dead.reasons().len(), 12);
    assert_eq!(db.current(pos(5), act(0)), Some(handle));
    assert_eq!(kind_at(&db, 1, 10), Some(FactKind::ActivationMustBeOn));
    assert_eq!(kind_at(&db, 2, 11), Some(FactKind::ActivationMustBeOn));
    // the call stopped at the first dead cell
    assert_eq!(kind_at(&db, 5, 1), Some(FactKind::ActivationCannotBeOn));
}

#[test]
fn duplicate_is_independent() {
    let lock = plain_lock(vec![]);
    let mut db = FactDb::new(12, 12);
    assert!(db.integrate_and_consolidate(must(0, 0), &lock).is_ok());
    let mut copy = db.duplicate();
    assert_eq!(copy.num_facts(), 23);
    assert!(copy.integrate_and_consolidate(must(1, 1), &lock).is_ok());
    assert_eq!(kind_at(&copy, 1, 1), Some(FactKind::ActivationMustBeOn));
    assert_eq!(kind_at(&db, 1, 1), None);
    assert_eq!(db.num_facts(), 23);
}
