use rune_lock::activation::{Activation, ActivationError};
use rune_lock::command::{SolverCommand, SolverCommandError};
use rune_lock::fact_solver::fact_db::FactHandle;
use rune_lock::index::RunePosition;

#[test]
fn assume_takes_position_and_activation() {
    for text in ["assume 3 7", "a 3 7", "a +3 +7", "a 03 007"] {
        match SolverCommand::parse(text) {
            Ok(SolverCommand::Assume { position, activation }) => {
                assert_eq!(position, RunePosition::new(3));
                assert_eq!(activation, Activation::from_human(7).unwrap());
                assert_eq!(activation.index(), 6);
            }
            other => panic!("{:?} gave {:?}", text, other),
        }
    }
    assert!(matches!(
        SolverCommand::parse("a 0 12"),
        Ok(SolverCommand::Assume { position, activation })
            if position.index() == 0 && activation.index() == 11
    ));
}

#[test]
fn assume_errors() {
    assert!(matches!(
        SolverCommand::parse("assume"),
        Err(SolverCommandError::NotEnoughArguments { expected: 2 })
    ));
    assert!(matches!(
        SolverCommand::parse("a 3"),
        Err(SolverCommandError::NotEnoughArguments { expected: 2 })
    ));
    for text in ["a x 3", "a 3 x", "a  3", "a 3 ", "a 3 4 5", "a -1 3", "a 3 256", "a 3 +", "a 99999999999999999999999 3"] {
        assert!(
            matches!(SolverCommand::parse(text), Err(SolverCommandError::NumberFormat(_))),
            "{:?}",
            text
        );
    }
    assert!(matches!(
        SolverCommand::parse("a 12 3"),
        Err(SolverCommandError::PositionInvalid(12))
    ));
    assert!(matches!(
        SolverCommand::parse("a 3 0"),
        Err(SolverCommandError::ActivationInvalid(ActivationError::OutOfBounds))
    ));
    assert!(matches!(
        SolverCommand::parse("a 3 13"),
        Err(SolverCommandError::ActivationInvalid(ActivationError::OutOfBounds))
    ));
    // the position is looked at before the activation
    assert!(matches!(
        SolverCommand::parse("a 12 13"),
        Err(SolverCommandError::PositionInvalid(12))
    ));
}

#[test]
fn one_argument_commands() {
    assert!(matches!(SolverCommand::parse("view 17"), Ok(SolverCommand::View { node: 17 })));
    assert!(matches!(SolverCommand::parse("v 0"), Ok(SolverCommand::View { node: 0 })));
    assert!(matches!(
        SolverCommand::parse("explain 42"),
        Ok(SolverCommand::Explain { fact_handle }) if fact_handle == FactHandle::from_raw(42)
    ));
    assert!(matches!(
        SolverCommand::parse("e 1"),
        Ok(SolverCommand::Explain { fact_handle }) if fact_handle == FactHandle::from_raw(1)
    ));
    assert!(matches!(
        SolverCommand::parse("tryposition 11"),
        Ok(SolverCommand::TryInPosition { position }) if position.index() == 11
    ));
    assert!(matches!(
        SolverCommand::parse("tp 0"),
        Ok(SolverCommand::TryInPosition { position }) if position.index() == 0
    ));
    assert!(matches!(SolverCommand::parse("tp 12"), Err(SolverCommandError::PositionInvalid(12))));
    assert!(matches!(
        SolverCommand::parse("tryactivation 1"),
        Ok(SolverCommand::TryActivation { activation }) if activation.index() == 0
    ));
    assert!(matches!(
        SolverCommand::parse("ta 12"),
        Ok(SolverCommand::TryActivation { activation }) if activation.index() == 11
    ));
    assert!(matches!(
        SolverCommand::parse("ta 0"),
        Err(SolverCommandError::ActivationInvalid(ActivationError::OutOfBounds))
    ));
    for text in ["view", "v ", "v 1 2", "e x", "tp", "ta 300", "view 1 "] {
        assert!(
            matches!(SolverCommand::parse(text), Err(SolverCommandError::NumberFormat(_))),
            "{:?}",
            text
        );
    }
}

#[test]
fn dump_and_unknown() {
    assert!(matches!(SolverCommand::parse("dump"), Ok(SolverCommand::Dump)));
    assert!(matches!(SolverCommand::parse("d"), Ok(SolverCommand::Dump)));
    assert!(matches!(SolverCommand::parse("d whatever else"), Ok(SolverCommand::Dump)));
    for (text, word) in [("", ""), ("look 3", "look"), ("Assume 1 2", "Assume"), (" a 1 2", ""), ("dumpp", "dumpp")] {
        match SolverCommand::parse(text) {
            Err(SolverCommandError::UnknownCommand(found)) => assert_eq!(found, word),
            other => panic!("{:?} gave {:?}", text, other),
        }
    }
}
