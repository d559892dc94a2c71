use rune_lock::activation::{Activation, ActivationError};
use rune_lock::assignment::{Assignment, AssignmentError};
use rune_lock::index::RunePosition;

fn act(index: u8) -> Activation {
    Activation::new(index).unwrap()
}

fn pos(index: usize) -> RunePosition {
    RunePosition::new(index)
}

#[test]
fn activation_bounds() {
    assert_eq!(Activation::new(0).unwrap().index(), 0);
    assert_eq!(Activation::new(11).unwrap().index(), 11);
    assert_eq!(Activation::new(12), Err(ActivationError::OutOfBounds));
    assert_eq!(Activation::new(255), Err(ActivationError::OutOfBounds));
    assert_eq!(Activation::from_human(0), Err(ActivationError::OutOfBounds));
    assert_eq!(Activation::from_human(1).unwrap().index(), 0);
    assert_eq!(Activation::from_human(12).unwrap().index(), 11);
    assert_eq!(Activation::from_human(13), Err(ActivationError::OutOfBounds));
    assert_eq!(act(3).next().unwrap().index(), 4);
    assert_eq!(act(10).next().unwrap().index(), 11);
    assert_eq!(act(11).next(), Err(ActivationError::OutOfBounds));
}

#[test]
fn empty_assignment() {
    let empty = Assignment::new([None; 12]).unwrap();
    empty.check();
    for p in 0..12 {
        assert_eq!(empty.get(pos(p)), None);
        assert_eq!(empty.position_of(act(p as u8)), None);
        assert!(!empty.contains(act(p as u8)));
    }
}

#[test]
fn assignment_is_both_ways() {
    let mut slots = [None; 12];
    slots[2] = Some(act(7));
    slots[9] = Some(act(0));
    let made = Assignment::new(slots).unwrap();
    assert_eq!(made.get(pos(2)), Some(act(7)));
    assert_eq!(made.get(pos(9)), Some(act(0)));
    assert_eq!(made.get(pos(0)), None);
    assert_eq!(made.position_of(act(7)), Some(pos(2)));
    assert_eq!(made.position_of(act(0)), Some(pos(9)));
    assert_eq!(made.position_of(act(2)), None);
    assert!(made.contains(act(7)));
    assert!(!made.contains(act(9)));
}

#[test]
fn double_assignment_names_the_first_clash() {
    let mut slots = [None; 12];
    slots[1] = Some(act(4));
    slots[3] = Some(act(5));
    slots[6] = Some(act(4));
    slots[8] = Some(act(5));
    slots[10] = Some(act(4));
    let refused = Assignment::new(slots);
    assert_eq!(
        refused.err(),
        Some(AssignmentError::ActivationDoubleAssigned {
            activation: act(4),
            position_a: pos(6),
            position_b: pos(1),
        })
    );
}

#[test]
fn from_iter_takes_twelve_slots() {
    let mut slots = vec![None; 12];
    slots[11] = Some(act(11));
    let made = Assignment::from_iter(slots.clone()).unwrap();
    assert_eq!(made.get(pos(11)), Some(act(11)));
    assert_eq!(made.position_of(act(11)), Some(pos(11)));
    slots[0] = Some(act(11));
    assert_eq!(
        Assignment::from_iter(slots).err(),
        Some(AssignmentError::ActivationDoubleAssigned {
            activation: act(11),
            position_a: pos(11),
            position_b: pos(0),
        })
    );
}

#[test]
fn tuples_fill_in_order() {
    let made = Assignment::from_tuple_iter(&vec![(pos(3), act(1)), (pos(4), act(2))]).unwrap();
    assert_eq!(made.get(pos(3)), Some(act(1)));
    assert_eq!(made.get(pos(4)), Some(act(2)));
    assert_eq!(made.position_of(act(2)), Some(pos(4)));

    // a later pair for a position replaces the earlier one
    let made = Assignment::from_tuple_iter(&vec![(pos(3), act(1)), (pos(3), act(2))]).unwrap();
    assert_eq!(made.get(pos(3)), Some(act(2)));
    assert_eq!(made.position_of(act(1)), None);

    // the same pair twice is one placement
    let made = Assignment::from_tuple_iter(&vec![(pos(3), act(1)), (pos(3), act(1))]).unwrap();
    assert_eq!(made.position_of(act(1)), Some(pos(3)));

    // one activation on two positions is refused, whatever the order
    for pairs in [
        vec![(pos(7), act(1)), (pos(2), act(1))],
        vec![(pos(2), act(1)), (pos(7), act(1))],
    ] {
        assert_eq!(
            Assignment::from_tuple_iter(&pairs).err(),
            Some(AssignmentError::ActivationDoubleAssigned {
                activation: act(1),
                position_a: pos(7),
                position_b: pos(2),
            })
        );
    }
    assert!(Assignment::from_tuple_iter(&vec![]).unwrap().get(pos(0)).is_none());
}

#[test]
fn assign_evicts_old_pairings() {
    let mut made = Assignment::new([None; 12]).unwrap();
    made.assign(pos(1), act(5));
    made.assign(pos(2), act(6));
    assert_eq!(made.get(pos(1)), Some(act(5)));
    assert_eq!(made.position_of(act(6)), Some(pos(2)));

    // the activation moves: its old position is free again
    made.assign(pos(3), act(5));
    assert_eq!(made.get(pos(1)), None);
    assert_eq!(made.get(pos(3)), Some(act(5)));
    assert_eq!(made.position_of(act(5)), Some(pos(3)));

    // the position is taken over: what it held is no longer placed
    made.assign(pos(2), act(5));
    assert_eq!(made.get(pos(3)), None);
    assert_eq!(made.get(pos(2)), Some(act(5)));
    assert_eq!(made.position_of(act(6)), None);
    assert!(!made.contains(act(6)));
    assert_eq!(made.position_of(act(5)), Some(pos(2)));

    // assigning what is already there changes nothing
    made.assign(pos(2), act(5));
    assert_eq!(made.get(pos(2)), Some(act(5)));
    assert_eq!(made.position_of(act(5)), Some(pos(2)));
    made.check();
}
