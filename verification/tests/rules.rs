use rune_lock::activation::Activation;
use rune_lock::assignment::{Assignment, AssignmentError};
use rune_lock::index::RunePosition;
use rune_lock::rule::{ActivationRuleKindHelpers, RuleError, RuleKind, ValidateTupleError};
use rune_lock::rune::Rune;
use rune_lock::{RuneLock, RuneLockError};

fn act(index: u8) -> Activation {
    Activation::new(index).unwrap()
}

fn pos(index: usize) -> RunePosition {
    RunePosition::new(index)
}

fn lock(rules: Vec<RuleKind>) -> RuneLock {
    RuneLock::new([0, 2, 1, 3, 2, 1, 3, 2, 1, 0, 2, 1].map(|it| Rune::new(it)), rules)
}

fn placed(pairs: &[(usize, u8)]) -> Assignment {
    let pairs: Vec<_> = pairs.iter().map(|(p, a)| (pos(*p), act(*a))).collect();
    Assignment::from_tuple_iter(&pairs).unwrap()
}

fn verdict(rule: RuleKind, pairs: &[(usize, u8)]) -> Result<(), RuleError> {
    rule.validate(&lock(vec![]), &placed(pairs))
}

#[test]
fn helpers_count_from_one() {
    let rule = (1, 12).alwanese();
    assert!(matches!(rule, RuleKind::Alwanese { first, second } if first == act(0) && second == act(11)));
    assert!(matches!((2, 3).antakian_conjugate(), RuleKind::AntakianConjugates { first, second } if first == act(1) && second == act(2)));
    assert!(matches!((6, 7).alwanese_conjugate(), RuleKind::AlwaneseConjugates { first, second } if first == act(5) && second == act(6)));
    assert!(matches!((7, 8).different_runes(), RuleKind::DifferentRunes { first, second } if first == act(6) && second == act(7)));
    assert!(matches!((9, 10).antakian_twins(), RuleKind::AntakianTwins { first, second } if first == act(8) && second == act(9)));
    assert!(matches!((10, 11).increase_santor(), RuleKind::IncreaseSantor { first, second } if first == act(9) && second == act(10)));
    assert!(matches!((3, 4).max_0_conductive(), RuleKind::Max0Conductive { first, second } if first == act(2) && second == act(3)));
    assert_eq!(rule.activations(), Some((act(0), act(11))));
    let runes = RuleKind::RuneFollowsImmediately { first: Rune::new(0), second: Rune::new(1) };
    assert_eq!(runes.activations(), None);
}

#[test]
fn unplaced_activations_cannot_fail() {
    for rule in [
        (1, 2).alwanese(),
        (1, 2).antakian_conjugate(),
        (1, 2).alwanese_conjugate(),
        (1, 2).different_runes(),
        (1, 2).antakian_twins(),
        (1, 2).increase_santor(),
        (1, 2).max_0_conductive(),
        RuleKind::RuneFollowsImmediately { first: Rune::new(0), second: Rune::new(1) },
    ] {
        assert_eq!(verdict(rule, &[]), Ok(()));
        assert_eq!(verdict(rule, &[(5, 7)]), Ok(()));
    }
}

#[test]
fn alwanese_is_directional() {
    let rule = (1, 2).alwanese();
    assert_eq!(verdict(rule, &[(0, 0), (1, 1)]), Ok(()));
    assert_eq!(verdict(rule, &[(0, 0), (8, 1)]), Ok(()));
    assert_eq!(verdict(rule, &[(1, 0), (0, 1)]), Err(RuleError::Violated));
    assert_eq!(verdict(rule, &[(0, 0), (3, 1)]), Err(RuleError::Violated));
    assert_eq!(verdict(rule, &[(0, 0), (6, 1)]), Err(RuleError::Violated));
    // one placed: nothing is checked
    assert_eq!(verdict(rule, &[(0, 0)]), Ok(()));
    assert_eq!(verdict(rule, &[(0, 1)]), Ok(()));
}

#[test]
fn antakian_conjugates_and_their_blocked_partner() {
    let rule = (1, 2).antakian_conjugate();
    assert_eq!(verdict(rule, &[(0, 0), (3, 1)]), Ok(()));
    assert_eq!(verdict(rule, &[(7, 0), (10, 1)]), Ok(()));
    assert_eq!(verdict(rule, &[(0, 0), (9, 1)]), Err(RuleError::Violated));
    assert_eq!(verdict(rule, &[(0, 0), (1, 1)]), Err(RuleError::Violated));
    // one placed, the conjugate position free
    assert_eq!(verdict(rule, &[(0, 0)]), Ok(()));
    assert_eq!(verdict(rule, &[(0, 0), (9, 5)]), Ok(()));
    // one placed, the conjugate position taken by a third
    assert_eq!(verdict(rule, &[(0, 0), (3, 5)]), Err(RuleError::Unfulfillable));
    assert_eq!(verdict(rule, &[(10, 1), (7, 5)]), Err(RuleError::Unfulfillable));
}

#[test]
fn alwanese_conjugates_cross_the_circles() {
    let rule = (1, 2).alwanese_conjugate();
    assert_eq!(verdict(rule, &[(0, 0), (3, 1)]), Ok(()));
    assert_eq!(verdict(rule, &[(0, 0), (9, 1)]), Ok(()));
    assert_eq!(verdict(rule, &[(0, 0), (4, 1)]), Err(RuleError::Violated));
    assert_eq!(verdict(rule, &[(0, 0), (3, 5)]), Ok(()));
}

#[test]
fn different_runes_looks_at_the_lock() {
    let rule = (1, 2).different_runes();
    // positions 0 and 9 both carry rune 0
    assert_eq!(verdict(rule, &[(0, 0), (9, 1)]), Err(RuleError::Violated));
    assert_eq!(verdict(rule, &[(0, 0), (1, 1)]), Ok(()));
    // positions 1, 4, 7 and 10 carry rune 2
    assert_eq!(verdict(rule, &[(4, 0), (10, 1)]), Err(RuleError::Violated));
}

#[test]
fn antakian_twins_share_a_circle() {
    let rule = (1, 2).antakian_twins();
    assert_eq!(verdict(rule, &[(0, 0), (5, 1)]), Ok(()));
    assert_eq!(verdict(rule, &[(6, 0), (11, 1)]), Ok(()));
    assert_eq!(verdict(rule, &[(5, 0), (6, 1)]), Err(RuleError::Violated));
}

#[test]
fn santor_must_increase() {
    let rule = (1, 2).increase_santor();
    // santor: 7, 5, 2, 0, 2, 5, 6, 4, 3, 1, 3, 4
    assert_eq!(verdict(rule, &[(3, 0), (9, 1)]), Ok(()));
    assert_eq!(verdict(rule, &[(9, 0), (3, 1)]), Err(RuleError::Violated));
    assert_eq!(verdict(rule, &[(2, 0), (4, 1)]), Err(RuleError::Violated));
    // the first on the greatest santor leaves nothing greater for the second
    assert_eq!(verdict(rule, &[(0, 0)]), Err(RuleError::Unfulfillable));
    assert_eq!(verdict(rule, &[(6, 0)]), Ok(()));
    // the second on the smallest santor leaves nothing smaller for the first
    assert_eq!(verdict(rule, &[(3, 1)]), Err(RuleError::Unfulfillable));
    assert_eq!(verdict(rule, &[(0, 1)]), Ok(()));
    assert_eq!(verdict(rule, &[(9, 1)]), Ok(()));
}

#[test]
fn conductive_neighbours() {
    let rule = (1, 2).max_0_conductive();
    assert_eq!(verdict(rule, &[(0, 0), (1, 1)]), Ok(()));
    assert_eq!(verdict(rule, &[(0, 0), (5, 1)]), Ok(()));
    assert_eq!(verdict(rule, &[(0, 0), (6, 1)]), Ok(()));
    assert_eq!(verdict(rule, &[(11, 0), (6, 1)]), Ok(()));
    assert_eq!(verdict(rule, &[(0, 0), (2, 1)]), Err(RuleError::Violated));
    assert_eq!(verdict(rule, &[(0, 0), (7, 1)]), Err(RuleError::Violated));
}

#[test]
fn rune_follows_immediately() {
    let rule = RuleKind::RuneFollowsImmediately { first: Rune::new(0), second: Rune::new(1) };
    // rune 0 is at positions 0 and 9, rune 1 at 2, 5, 8 and 11
    assert_eq!(verdict(rule, &[(0, 3)]), Ok(()));
    assert_eq!(verdict(rule, &[(0, 3), (2, 4)]), Ok(()));
    assert_eq!(verdict(rule, &[(0, 3), (1, 4)]), Err(RuleError::Violated));
    assert_eq!(verdict(rule, &[(9, 3), (0, 4)]), Err(RuleError::Violated));
    // on another rune nothing is asked
    assert_eq!(verdict(rule, &[(1, 3), (3, 4)]), Ok(()));
    // the last activation has no successor
    assert_eq!(verdict(rule, &[(9, 11)]), Err(RuleError::Unfulfillable));
    assert_eq!(verdict(rule, &[(1, 11)]), Ok(()));
    // the first offending position decides
    assert_eq!(verdict(rule, &[(0, 11), (9, 3), (1, 4)]), Err(RuleError::Unfulfillable));
    assert_eq!(verdict(rule, &[(0, 3), (1, 4), (9, 11)]), Err(RuleError::Violated));
}

#[test]
fn validate_tuple_probes_two_placements() {
    let lock = lock(vec![]);
    let rule = (1, 2).alwanese();
    assert!(rule.validate_tuple(&lock, (pos(0), act(0)), (pos(1), act(1))).is_ok());
    assert!(matches!(
        rule.validate_tuple(&lock, (pos(0), act(0)), (pos(3), act(1))),
        Err(ValidateTupleError::RuleError(RuleError::Violated))
    ));
    // the second pair takes the position of the first: the first is no longer placed
    assert!(rule.validate_tuple(&lock, (pos(0), act(0)), (pos(0), act(1))).is_ok());
    let twice = (1, 1).alwanese();
    assert!(matches!(
        twice.validate_tuple(&lock, (pos(4), act(0)), (pos(2), act(0))),
        Err(ValidateTupleError::InvalidAssignment(AssignmentError::ActivationDoubleAssigned {
            activation,
            position_a,
            position_b,
        })) if activation == act(0) && position_a == pos(4) && position_b == pos(2)
    ));
    let santor = (1, 2).increase_santor();
    assert!(matches!(
        santor.validate_tuple(&lock, (pos(5), act(0)), (pos(5), act(0))),
        Ok(())
    ));
    assert!(matches!(
        santor.validate_tuple(&lock, (pos(0), act(0)), (pos(0), act(0))),
        Err(ValidateTupleError::RuleError(RuleError::Unfulfillable))
    ));
}

#[test]
fn lock_reports_first_failing_rule() {
    let lock = lock(vec![
        (1, 2).alwanese(),
        (2, 3).antakian_conjugate(),
        (3, 4).increase_santor(),
    ]);
    assert_eq!(lock.rule_count(), 3);
    assert_eq!(lock.rune_at(pos(3)), Rune::new(3));
    assert!(lock.validate(&placed(&[])).is_ok());
    assert!(lock.validate(&placed(&[(0, 0), (1, 1), (4, 2)])).is_ok());
    assert!(matches!(
        lock.validate(&placed(&[(0, 0), (3, 1), (1, 2)])),
        Err(RuneLockError::RuleViolated(0, RuleKind::Alwanese { .. }))
    ));
    assert!(matches!(
        lock.validate(&placed(&[(0, 0), (1, 1), (5, 2)])),
        Err(RuneLockError::RuleViolated(1, RuleKind::AntakianConjugates { .. }))
    ));
    assert!(matches!(
        lock.validate(&placed(&[(0, 2)])),
        Err(RuneLockError::RuleUnfulfillable(2, RuleKind::IncreaseSantor { .. }))
    ));
    // the first rule that fails is reported, though a later one fails as well
    assert!(matches!(
        lock.validate(&placed(&[(0, 0), (3, 1), (6, 2)])),
        Err(RuneLockError::RuleViolated(0, _))
    ));
    assert!(matches!(
        lock.validate(&placed(&[(3, 1), (6, 2)])),
        Err(RuneLockError::RuleViolated(1, _))
    ));
}
