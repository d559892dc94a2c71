use std::collections::HashSet;

use itertools::Itertools;
use rune_lock::index::RunePosition;

fn test_pairs(pass: HashSet<(usize, usize)>, test: impl Fn(RunePosition, RunePosition) -> bool) {
    for a in 0..12 {
        for b in 0..12 {
            let expected = pass.get(&(a, b)).is_some();
            let actual = test(RunePosition::new(a), RunePosition::new(b));
            assert_eq!(
                actual,
                expected,
                "Expected operation to be {} for {:?}",
                expected,
                (a, b)
            );
        }
    }
}

#[test]
pub fn test_antakian_conjugates() {
    test_pairs(
        HashSet::from([
            (0, 3),
            (1, 4),
            (2, 5),
            (3, 0),
            (4, 1),
            (5, 2),
            (6, 9),
            (7, 10),
            (8, 11),
            (9, 6),
            (10, 7),
            (11, 8),
        ]),
        |a, b| a.antakian_conjugate_of(b),
    );
}

#[test]
pub fn test_alwanese_of() {
    test_pairs(
        HashSet::from([
            (0, 1),
            (0, 2),
            (0, 7),
            (0, 8),
            (6, 1),
            (6, 2),
            (6, 7),
            (6, 8),
            (1, 2),
            (1, 3),
            (1, 8),
            (1, 9),
            (7, 2),
            (7, 3),
            (7, 8),
            (7, 9),
            (2, 3),
            (2, 4),
            (2, 9),
            (2, 10),
            (8, 3),
            (8, 4),
            (8, 9),
            (8, 10),
            (3, 4),
            (3, 5),
            (3, 10),
            (3, 11),
            (9, 4),
            (9, 5),
            (9, 10),
            (9, 11),
            (4, 5),
            (4, 0),
            (4, 11),
            (4, 6),
            (10, 5),
            (10, 0),
            (10, 11),
            (10, 6),
            (5, 0),
            (5, 1),
            (5, 6),
            (5, 7),
            (11, 0),
            (11, 1),
            (11, 6),
            (11, 7),
        ]),
        |a, b| b.alwanese_of(a),
    );
}

#[test]
pub fn test_alwanese_conjugates() {
    test_pairs(
        HashSet::from([
            (0, 3),
            (0, 9),
            (1, 4),
            (1, 10),
            (2, 5),
            (2, 11),
            (3, 0),
            (3, 6),
            (4, 1),
            (4, 7),
            (5, 2),
            (5, 8),
            (6, 9),
            (6, 3),
            (7, 10),
            (7, 4),
            (8, 11),
            (8, 5),
            (9, 6),
            (9, 0),
            (10, 7),
            (10, 1),
            (11, 8),
            (11, 2),
        ]),
        |a, b| a.alwanese_conjugate_of(b),
    );
}

#[test]
pub fn test_antakian_twins() {
    test_pairs(
        HashSet::from_iter(
            (0..6)
                .into_iter()
                .permutations(2)
                .map(|it| (it[0], it[1]))
                .chain((6..12).permutations(2).map(|it| (it[0], it[1])))
                .chain((0..12).map(|it| (it, it))),
        ),
        |a, b| a.antakian_twins(b),
    );
}

#[test]
pub fn test_conductivity() {
    test_pairs(
        HashSet::from_iter(
            (0..6)
                .into_iter()
                .flat_map(|num| [(num, (num + 1) % 6), ((num + 1) % 6, num)])
                .chain(
                    (0..6)
                        .into_iter()
                        .flat_map(|num| [(num + 6, (num + 1) % 6 + 6), ((num + 1) % 6 + 6, num + 6)]),
                )
                .chain((0..12).into_iter().map(|num| (num, (num + 6) % 12))),
        ),
        |a, b| a.max_0_conductive(b),
    );
}

#[test]
fn santor_table_and_increase() {
    let expected: [u32; 12] = [7, 5, 2, 0, 2, 5, 6, 4, 3, 1, 3, 4];
    for a in 0..12 {
        assert_eq!(RunePosition::new(a).santor(), expected[a]);
        for b in 0..12 {
            assert_eq!(
                RunePosition::new(a).increases_santor(RunePosition::new(b)),
                expected[a] < expected[b]
            );
        }
    }
}

#[test]
fn conjugate_stays_on_its_circle() {
    let expected: [usize; 12] = [3, 4, 5, 0, 1, 2, 9, 10, 11, 6, 7, 8];
    for a in 0..12 {
        let partner = RunePosition::new(a).antiakian_conjugate();
        assert_eq!(partner.index(), expected[a]);
        assert_eq!(partner.antiakian_conjugate().index(), a);
    }
}
