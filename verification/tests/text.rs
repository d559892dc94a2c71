use rune_lock::activation::Activation;
use rune_lock::fact_solver::assumption_tree::AssumptionTreeNodeHandle;
use rune_lock::fact_solver::fact_db::FactHandle;
use rune_lock::fact_solver::{
    describe_fact, ContradictionKind, Fact, FactKind, FactReason, SolverAction, SolverStateState,
};
use rune_lock::index::RunePosition;
use rune_lock::rule::{ActivationRuleKindHelpers, RuleKind};
use rune_lock::rune::Rune;
use rune_lock::text::{decimal_text, digit_text, repeat_text};

#[test]
fn numbers_in_decimal() {
    assert_eq!(decimal_text(0), "0");
    assert_eq!(decimal_text(7), "7");
    assert_eq!(decimal_text(10), "10");
    assert_eq!(decimal_text(1203), "1203");
    assert_eq!(decimal_text(usize::MAX), usize::MAX.to_string());
    for digit in 0..10 {
        assert_eq!(digit_text(digit), digit.to_string());
    }
    for n in [0usize, 9, 99, 100, 4096] {
        assert_eq!(decimal_text(n).parse::<usize>().unwrap(), n);
    }
    assert_eq!(repeat_text("ab", 3), "ababab");
    assert_eq!(repeat_text("ab", 0), "");
}

#[test]
fn basic_types_as_people_read_them() {
    assert_eq!(Activation::new(0).unwrap().to_text(), "#1");
    assert_eq!(Activation::new(11).unwrap().to_text(), "#12");
    assert_eq!(RunePosition::new(0).to_text(), "0");
    assert_eq!(RunePosition::new(11).to_text(), "11");
    assert_eq!(FactHandle::from_raw(305).to_text(), "F305");
    assert_eq!(AssumptionTreeNodeHandle(12).to_text(), "12");
    assert_eq!(Rune::new(0).to_text(), "Z");
    assert_eq!(Rune::new(1).to_text(), "V");
    assert_eq!(Rune::new(2).to_text(), "S");
    assert_eq!(Rune::new(3).to_text(), "C");
    assert_eq!(Rune::new(4).to_text(), "4");
    assert_eq!(Rune::new(255).to_text(), "255");
}

#[test]
fn rules_as_people_read_them() {
    assert_eq!((1, 2).alwanese().to_text(), "#1 & #2 are Alwanese");
    assert_eq!((2, 3).antakian_conjugate().to_text(), "#2 & #3 are Antakian Conjugates");
    assert_eq!((6, 7).alwanese_conjugate().to_text(), "#6 & #7 are Alwanese Conjugates");
    assert_eq!((7, 8).different_runes().to_text(), "#7 & #8 are Different Runes");
    assert_eq!((9, 10).antakian_twins().to_text(), "#9 & #10 are Antakian Twins");
    assert_eq!((10, 11).increase_santor().to_text(), "#10 & #11 increase Santor");
    assert_eq!((11, 12).max_0_conductive().to_text(), "#11 & #12 are max 0 Conductive");
    assert_eq!(
        RuleKind::RuneFollowsImmediately { first: Rune::new(0), second: Rune::new(1) }.to_text(),
        "V immediately follows Z"
    );
}

#[test]
fn facts_as_people_read_them() {
    let fact = |kind| {
        Fact::new(kind, Activation::new(4).unwrap(), RunePosition::new(10), vec![FactReason::Assumption])
    };
    assert_eq!(fact(FactKind::ActivationMustBeOn).to_text(), "#5 must be on 10");
    assert_eq!(fact(FactKind::ActivationCannotBeOn).to_text(), "#5 cannot be on 10");
    assert_eq!(
        fact(FactKind::Contradiction(ContradictionKind::ContradictingRequirements)).to_text(),
        "#5 has contradicting facts regarding position 10"
    );
    assert_eq!(
        fact(FactKind::Contradiction(ContradictionKind::NoOptionsLeft)).to_text(),
        "#5 or 10 has no options left to go"
    );
    assert_eq!(
        describe_fact(FactKind::ActivationCannotBeOn, Activation::new(0).unwrap(), "1, 2, 3"),
        "#1 cannot be on 1, 2, 3"
    );
}

#[test]
fn search_as_people_read_it() {
    assert_eq!(SolverAction::Root.to_text(), "Root");
    assert_eq!(
        SolverAction::Assume { position: RunePosition::new(3), activation: Activation::new(7).unwrap() }.to_text(),
        "Assume 3 = #8"
    );
    assert_eq!(SolverStateState::Unexplored.to_text(), " ");
    assert_eq!(SolverStateState::Solved.to_text(), "✔");
    assert_eq!(SolverStateState::Contradicts(FactHandle::from_raw(9)).to_text(), "✘ (F9)");
}
