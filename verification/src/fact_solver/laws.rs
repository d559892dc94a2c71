use vstd::prelude::*;
use vstd::set_lib::{lemma_int_range, lemma_len_subset, set_int_range};
use crate::assignment::injective;
use crate::fact_solver::deduction::cite_below;
use crate::fact_solver::fact_db::{
    ConsolidationResult, FactDbView, FactError, Possibilities, SingleFactIntegrationResult,
};
use crate::fact_solver::view::ViewAxis;
use crate::fact_solver::{FactKind, FactReason, FactView};
use crate::rule::RuleKind;
use crate::rune::Rune;

verus! {

/// The number that stands for a cell among the open cells.
pub open spec fn cell_number(row: int, col: int) -> int {
    row * 12 + col
}

/// A grid of at most twelve by twelve has at most 144 empty cells.
pub proof fn lemma_open_cells_bounded(db: FactDbView)
    ensures
        db.open_cells().finite(),
        db.open_cells().len() <= 144,
{
    lemma_int_range(0, 144);
    assert(db.open_cells().subset_of(set_int_range(0, 144)));
    lemma_len_subset(db.open_cells(), set_int_range(0, 144));
}

/// Whatever came from a database by writing facts in, and whatever came from
/// that, came from the database.
pub proof fn lemma_extended_by_chains(first: FactDbView, second: FactDbView, third: FactDbView)
    requires
        first.wf(),
        second.wf(),
        first.extended_by(second),
        second.extended_by(third),
    ensures
        first.extended_by(third),
{
    assert forall|r: int, c: int|
        0 <= r < first.rows && 0 <= c < first.cols && #[trigger] first.cells[r][c] is Some implies third.cells[r][c]
        == first.cells[r][c] || third.contradicted(r, c) by {
        assert(second.cells[r][c] is Some);
        if second.contradicted(r, c) {
            assert(third.cells[r][c] == second.cells[r][c]);
            let h = second.cells[r][c]->0 as int;
            assert(third.facts[h] == second.facts[h]);
        }
    }
    assert forall|r: int, c: int|
        0 <= r < first.rows && 0 <= c < first.cols && #[trigger] first.contradicted(r, c) implies third.cells[r][c]
        == first.cells[r][c] by {
        assert(second.cells[r][c] == first.cells[r][c]);
        let h = first.cells[r][c]->0 as int;
        assert(second.facts[h] == first.facts[h]);
        assert(second.contradicted(r, c));
    }
    assert forall|h: int| 0 <= h < first.facts.len() implies #[trigger] third.facts[h] == first.facts[h] by {
        assert(second.facts[h] == first.facts[h]);
    }
}

/// Writing one fact into its cell keeps the database sound and only adds to
/// it. If nothing is reported as integrated, nothing has changed. If a fact
/// other than a contradiction has become current, the cell was empty before
/// and is the one cell that is no longer empty.
pub proof fn lemma_integrate_step(db: FactDbView, fact: FactView)
    requires
        db.wf(),
        db.holds(fact),
        db.integrate_step(fact).0.facts.len() <= usize::MAX,
    ensures
        ({
            let (after, outcome) = db.integrate_step(fact);
            &&& after.wf()
            &&& db.extended_by(after)
            &&& after.open_cells().subset_of(db.open_cells())
            &&& match outcome {
                SingleFactIntegrationResult::Unchanged(h) => after == db && h.0 < db.facts.len() && Some(h.0)
                    == db.cells[fact.position as int][fact.activation as int],
                SingleFactIntegrationResult::Integrated(h) => {
                    &&& h.0 < after.facts.len()
                    &&& after.cells[fact.position as int][fact.activation as int] == Some(h.0)
                    &&& after.facts[h.0 as int].kind is Contradiction || {
                        &&& after.facts[h.0 as int] == fact
                        &&& db.open_cells().contains(cell_number(fact.position as int, fact.activation as int))
                        &&& after.open_cells() == db.open_cells().remove(
                            cell_number(fact.position as int, fact.activation as int),
                        )
                    }
                },
            }
        }),
{
    let (after, outcome) = db.integrate_step(fact);
    let r = fact.position as int;
    let c = fact.activation as int;
    match outcome {
        SingleFactIntegrationResult::Unchanged(h) => {},
        SingleFactIntegrationResult::Integrated(h) => {
            assert(after.cells[r] =~= db.cells[r].update(c, Some(h.0)));
            assert(after.cells.len() == db.cells.len());
            assert forall|x: int, y: int| 0 <= x < after.rows && 0 <= y < after.cols implies (
            #[trigger] after.cells[x][y] matches Some(g) ==> g < after.facts.len() && after.facts[g as int].position
                == x && after.facts[g as int].activation == y) by {
                if x == r && y == c {
                } else {
                    assert(after.cells[x][y] == db.cells[x][y]);
                }
            }
            assert forall|x: int| 0 <= x < after.rows implies (#[trigger] after.cells[x]).len() == after.cols by {
                if x != r {
                    assert(after.cells[x] == db.cells[x]);
                }
            }
            assert forall|x: int, y: int|
                0 <= x < db.rows && 0 <= y < db.cols && #[trigger] db.contradicted(x, y) implies after.cells[x][y]
                == db.cells[x][y] by {
                if x == r && y == c {
                } else {
                    assert(after.cells[x][y] == db.cells[x][y]);
                }
            }
            assert forall|x: int, y: int|
                0 <= x < db.rows && 0 <= y < db.cols && #[trigger] db.cells[x][y] is Some implies after.cells[x][y]
                == db.cells[x][y] || after.contradicted(x, y) by {
                if x == r && y == c {
                } else {
                    assert(after.cells[x][y] == db.cells[x][y]);
                }
            }
            assert forall|k: int| after.open_cells().contains(k) implies db.open_cells().contains(k) by {
                if k / 12 == r && k % 12 == c {
                } else {
                    assert(after.cells[k / 12][k % 12] == db.cells[k / 12][k % 12]);
                }
            }
            if !(after.facts[h.0 as int].kind is Contradiction) {
                let id = cell_number(r, c);
                assert(db.cells[r][c] is None);
                assert(db.open_cells().contains(id));
                assert forall|k: int| db.open_cells().remove(id).contains(k) implies after.open_cells().contains(
                    k,
                ) by {
                    assert(after.cells[k / 12][k % 12] == db.cells[k / 12][k % 12]);
                }
                assert(after.open_cells() =~= db.open_cells().remove(id));
            }
        },
    }
}

/// A cell that holds a contradiction keeps it, whatever fact is written
/// into whatever cell.
pub proof fn lemma_contradiction_is_absorbing(db: FactDbView, fact: FactView, row: int, col: int)
    requires
        db.wf(),
        db.holds(fact),
        0 <= row < db.rows,
        0 <= col < db.cols,
        db.contradicted(row, col),
        db.integrate_step(fact).0.facts.len() <= usize::MAX,
    ensures
        db.integrate_step(fact).0.cells[row][col] == db.cells[row][col],
        db.integrate_step(fact).0.contradicted(row, col),
{
    lemma_integrate_step(db, fact);
    let after = db.integrate_step(fact).0;
    let h = db.cells[row][col]->0 as int;
    assert(after.facts[h] == db.facts[h]);
}

/// A list of facts that is written in without any change being reported has
/// changed nothing: each of its facts alone would change nothing either.
pub proof fn lemma_unchanged_is_idle(db: FactDbView, facts: Seq<FactView>, upto: int)
    requires
        0 <= upto <= facts.len(),
        db.integrate_all(facts, upto).1 == Ok::<ConsolidationResult, FactError>(ConsolidationResult::Unchanged),
    ensures
        db.integrate_all(facts, upto).0 == db,
        forall|i: int| 0 <= i < upto ==> (#[trigger] db.integrate_step(facts[i])).1 is Unchanged,
    decreases upto,
{
    if upto > 0 {
        let (before, status) = db.integrate_all(facts, upto - 1);
        lemma_unchanged_is_idle(db, facts, upto - 1);
    }
}

/// Writing a list of facts in keeps the database sound and only adds to it.
/// An error names a contradiction that is current in some cell. If a change
/// is reported without an error, fewer cells are empty than before.
pub proof fn lemma_integrate_all(db: FactDbView, facts: Seq<FactView>, upto: int)
    requires
        db.wf(),
        db.holds_all(facts),
        0 <= upto <= facts.len(),
        db.integrate_all(facts, upto).0.facts.len() <= usize::MAX,
    ensures
        db.integrate_all(facts, upto).0.open_cells().subset_of(db.open_cells()),
        db.progress(db.integrate_all(facts, upto).0, db.integrate_all(facts, upto).1),
    decreases upto,
{
    lemma_open_cells_bounded(db);
    if upto > 0 {
        let (before, status) = db.integrate_all(facts, upto - 1);
        lemma_integrate_all(db, facts, upto - 1);
        lemma_open_cells_bounded(before);
        if status is Ok {
            assert(before.holds(facts[upto - 1]));
            lemma_integrate_step(before, facts[upto - 1]);
            let (after, outcome) = before.integrate_step(facts[upto - 1]);
            lemma_extended_by_chains(db, before, after);
            lemma_open_cells_bounded(after);
            lemma_len_subset(after.open_cells(), before.open_cells());
            if status == Ok::<ConsolidationResult, FactError>(ConsolidationResult::Unchanged) {
                lemma_unchanged_is_idle(db, facts, upto - 1);
            }
        }
    }
}

/// Justifications that cite only facts below a number cite only facts below
/// any greater number.
pub proof fn lemma_cite_below_grows(reasons: Seq<FactReason>, bound: nat, more: nat)
    requires
        cite_below(reasons, bound),
        bound <= more,
    ensures
        cite_below(reasons, more),
{
}

/// Writing in a fact that cites only facts that are written down keeps the
/// order of the list an order of the justifications.
pub proof fn lemma_integrate_step_keeps_order(db: FactDbView, fact: FactView)
    requires
        db.wf(),
        db.holds(fact),
        db.integrate_step(fact).0.facts.len() <= usize::MAX,
        db.well_founded(),
        db.cites_known(fact),
    ensures
        db.integrate_step(fact).0.well_founded(),
{
    let after = db.integrate_step(fact).0;
    lemma_integrate_step(db, fact);
    assert forall|h: int| 0 <= h < after.facts.len() implies cite_below(
        (#[trigger] after.facts[h]).reasons,
        h as nat,
    ) by {
        if h < db.facts.len() {
            assert(after.facts[h] == db.facts[h]);
        } else if h == db.facts.len() {
            assert(after.facts[h] == fact);
        } else {
            let existing = db.cells[fact.position as int][fact.activation as int]->0;
            assert(after.facts[h] == db.collision(fact, existing));
        }
    }
}

/// Writing in a list of facts that cite only facts that were written down
/// before the first of them was written in keeps the order of the list an
/// order of the justifications.
pub proof fn lemma_integrate_all_keeps_order(db: FactDbView, facts: Seq<FactView>, upto: int)
    requires
        db.wf(),
        db.holds_all(facts),
        0 <= upto <= facts.len(),
        db.integrate_all(facts, upto).0.facts.len() <= usize::MAX,
        db.well_founded(),
        db.cites_all(facts),
    ensures
        db.integrate_all(facts, upto).0.well_founded(),
    decreases upto,
{
    if upto > 0 {
        let (before, status) = db.integrate_all(facts, upto - 1);
        lemma_integrate_all(db, facts, upto - 1);
        lemma_integrate_all_keeps_order(db, facts, upto - 1);
        if status is Ok {
            assert(db.cites_known(facts[upto - 1]));
            assert(before.holds(facts[upto - 1]));
            lemma_cite_below_grows(facts[upto - 1].reasons, db.facts.len(), before.facts.len());
            lemma_integrate_step_keeps_order(before, facts[upto - 1]);
        }
    }
}

/// Once writing a list in has met a contradiction, the rest of the list is
/// not looked at.
pub proof fn lemma_error_sticks(db: FactDbView, facts: Seq<FactView>, at: int, upto: int)
    requires
        0 <= at <= upto,
        db.integrate_all(facts, at).1 is Err,
    ensures
        db.integrate_all(facts, upto) == db.integrate_all(facts, at),
    decreases upto - at,
{
    if at < upto {
        lemma_error_sticks(db, facts, at, upto - 1);
    }
}

/// What holds of two steps in a row holds of both together: an error of the
/// second is the error of both, and both together changed something if one
/// of them did.
pub proof fn lemma_progress_chains(
    first: FactDbView,
    second: FactDbView,
    third: FactDbView,
    one: ConsolidationResult,
    two: Result<ConsolidationResult, FactError>,
)
    requires
        first.wf(),
        first.progress(second, Ok(one)),
        second.progress(third, two),
    ensures
        first.progress(
            third,
            match two {
                Err(e) => Err(e),
                Ok(other) => if one == ConsolidationResult::Unchanged && other == ConsolidationResult::Unchanged {
                    Ok(ConsolidationResult::Unchanged)
                } else {
                    Ok(ConsolidationResult::Changes)
                },
            },
        ),
{
    lemma_extended_by_chains(first, second, third);
}

/// The activation that counts as required on a position is required there.
pub proof fn lemma_last_must_be(db: FactDbView, row: int, upto: int)
    requires
        db.last_must_be(row, upto) is Some,
    ensures
        0 <= db.last_must_be(row, upto)->0 < upto,
        db.kind_at(row, db.last_must_be(row, upto)->0 as int) == Some(FactKind::ActivationMustBeOn),
    decreases upto,
{
    if upto > 0 && db.kind_at(row, upto - 1) != Some(FactKind::ActivationMustBeOn) {
        lemma_last_must_be(db, row, upto - 1);
    }
}

/// A line with a requirement among its first `upto` cells has a first one.
pub proof fn lemma_first_must_be(db: FactDbView, axis: ViewAxis, line: int, upto: int, k: int)
    requires
        0 <= k < upto,
        db.lane_kind(axis, line, k) == Some(FactKind::ActivationMustBeOn),
    ensures
        db.first_must_be(axis, line, upto) is Some,
        0 <= db.first_must_be(axis, line, upto)->0 <= k,
        db.lane_kind(axis, line, db.first_must_be(axis, line, upto)->0) == Some(FactKind::ActivationMustBeOn),
    decreases upto,
{
    if k < upto - 1 {
        lemma_first_must_be(db, axis, line, upto - 1, k);
    } else if db.first_must_be(axis, line, upto - 1) is Some {
        lemma_first_must_be_is_one(db, axis, line, upto - 1);
    }
}

/// The first requirement of a line is a requirement.
pub proof fn lemma_first_must_be_is_one(db: FactDbView, axis: ViewAxis, line: int, upto: int)
    requires
        db.first_must_be(axis, line, upto) is Some,
    ensures
        0 <= db.first_must_be(axis, line, upto)->0 < upto,
        db.lane_kind(axis, line, db.first_must_be(axis, line, upto)->0) == Some(FactKind::ActivationMustBeOn),
    decreases upto,
{
    if upto > 0 && db.first_must_be(axis, line, upto - 1) is Some {
        lemma_first_must_be_is_one(db, axis, line, upto - 1);
    }
}

/// Every candidate of a line other than the required cell is among the
/// exclusions that the requirement gives rise to. The result is its place in
/// the list.
pub proof fn lemma_exclusions_reach(db: FactDbView, axis: ViewAxis, line: int, k0: int, upto: int, k: int) -> (at:
    int)
    requires
        0 <= line,
        0 <= k < upto,
        k != k0,
        db.is_candidate(axis.cell(line, k).0, axis.cell(line, k).1),
    ensures
        0 <= at < db.exclusions(axis, line, k0, upto).len(),
        db.exclusions(axis, line, k0, upto)[at].kind == FactKind::ActivationCannotBeOn,
        db.exclusions(axis, line, k0, upto)[at].position == axis.cell(line, k).0,
        db.exclusions(axis, line, k0, upto)[at].activation == axis.cell(line, k).1,
    decreases upto,
{
    if k < upto - 1 {
        lemma_exclusions_reach(db, axis, line, k0, upto - 1, k)
    } else {
        db.exclusions(axis, line, k0, upto - 1).len() as int
    }
}

/// What one line gives rise to is part of what all lines give rise to. The
/// result is the place in the long list of the `at`th derivation of the line.
pub proof fn lemma_line_is_part(db: FactDbView, axis: ViewAxis, upto: int, line: int, at: int) -> (place: int)
    requires
        0 <= line < upto,
        0 <= at < db.line_derivations(axis, line).len(),
    ensures
        0 <= place < db.unique_derivations(axis, upto).len(),
        db.unique_derivations(axis, upto)[place] == db.line_derivations(axis, line)[at],
    decreases upto,
{
    if line < upto - 1 {
        lemma_line_is_part(db, axis, upto - 1, line, at)
    } else {
        db.unique_derivations(axis, upto - 1).len() + at
    }
}

/// In a database in which nothing is left to derive, no activation is
/// required on two positions: the placement that its requirements make can be
/// handed to an assignment.
pub proof fn lemma_settled_places_no_activation_twice(db: FactDbView, runes: Seq<Rune>, rules: Seq<RuleKind>)
    requires
        db.wf(),
        db.settled(runes, rules),
    ensures
        injective(db.fixed_slots()),
{
    let slots = db.fixed_slots();
    let first = db.unique_derivations(ViewAxis::Position, db.rows as int);
    let (one, by_position) = db.integrate_all(first, first.len() as int);
    lemma_unchanged_is_idle(db, first, first.len() as int);
    assert(one == db);
    let second = db.unique_derivations(ViewAxis::Activation, db.cols as int);
    let (two, by_activation) = db.integrate_all(second, second.len() as int);
    lemma_unchanged_is_idle(db, second, second.len() as int);
    assert forall|i: int, j: int| 0 <= i < j < slots.len() && slots[i] is Some implies #[trigger] slots[i]
        != #[trigger] slots[j] by {
        if slots[i] == slots[j] {
            let a = slots[i]->0 as int;
            lemma_last_must_be(db, i, db.cols as int);
            lemma_last_must_be(db, j, db.cols as int);
            let axis = ViewAxis::Activation;
            lemma_first_must_be(db, axis, a, db.rows as int, i);
            let k0 = db.first_must_be(axis, a, db.rows as int)->0;
            let other = if k0 == i {
                j
            } else {
                i
            };
            let at = lemma_exclusions_reach(db, axis, a, k0, db.rows as int, other);
            let place = lemma_line_is_part(db, axis, db.cols as int, a, at);
            assert(db.integrate_step(second[place]).1 is Unchanged);
            assert(false);
        }
    }
}

/// Consolidating a database in which nothing is left to derive changes
/// nothing and succeeds; so does taking in a fact that changes nothing in its
/// cell.
pub proof fn lemma_settled_is_a_fixpoint(db: FactDbView, runes: Seq<Rune>, rules: Seq<RuleKind>, fact: FactView)
    requires
        db.settled(runes, rules),
    ensures
        db.consolidated(runes, rules) == (db, Ok::<(), FactError>(())),
        db.integrate_step(fact).1 is Unchanged ==> db.integrated(fact, runes, rules) == (
            db,
            Ok::<(), FactError>(()),
        ),
{
}

/// On a line without facts no cell is required, and which cells are empty
/// is counted as it should be: none of none, the one of one, many of more.
pub proof fn lemma_line_without_facts(db: FactDbView, axis: ViewAxis, line: int, upto: int)
    requires
        0 <= upto,
        forall|k: int| 0 <= k < upto ==> db.lane_kind(axis, line, k) is None,
    ensures
        db.first_must_be(axis, line, upto) is None,
        db.tally(axis, line, upto) == if upto == 0 {
            Possibilities::<int>::Empty
        } else if upto == 1 {
            Possibilities::Single(0int)
        } else {
            Possibilities::<int>::Multiple
        },
    decreases upto,
{
    if upto > 0 {
        lemma_line_without_facts(db, axis, line, upto - 1);
        assert(db.lane_kind(axis, line, upto - 1) is None);
    }
}

/// In a grid without facts, of at least two by two cells, nothing is to be
/// derived from the lines.
pub proof fn lemma_nothing_follows_from_empty_lines(db: FactDbView, axis: ViewAxis, upto: int)
    requires
        db.wf(),
        db.rows >= 2,
        db.cols >= 2,
        forall|r: int, c: int| 0 <= r < db.rows && 0 <= c < db.cols ==> db.cells[r][c] is None,
        0 <= upto <= db.lines(axis),
    ensures
        db.unique_derivations(axis, upto) == Seq::<FactView>::empty(),
    decreases upto,
{
    if upto > 0 {
        lemma_nothing_follows_from_empty_lines(db, axis, upto - 1);
        let line = upto - 1;
        assert forall|k: int| 0 <= k < db.length(axis) implies db.lane_kind(axis, line, k) is None by {
            let (r, c) = axis.cell(line, k);
            assert(db.cells[r][c] is None);
        }
        lemma_line_without_facts(db, axis, line, db.length(axis) as int);
        assert(db.line_derivations(axis, line) =~= Seq::<FactView>::empty());
    }
}

/// A row without facts has no requirements.
pub proof fn lemma_row_without_givens(db: FactDbView, row: int, upto: int)
    requires
        0 <= row < db.rows,
        0 <= upto <= db.cols,
        forall|c: int| 0 <= c < db.cols ==> db.cells[row][c] is None,
    ensures
        db.row_givens(row, upto) == Seq::<(int, int)>::empty(),
    decreases upto,
{
    if upto > 0 {
        lemma_row_without_givens(db, row, upto - 1);
        assert(db.cells[row][upto - 1] is None);
    }
}

/// A grid without facts has no requirements.
pub proof fn lemma_no_givens_without_facts(db: FactDbView, upto: int)
    requires
        forall|r: int, c: int| 0 <= r < db.rows && 0 <= c < db.cols ==> db.cells[r][c] is None,
        0 <= upto <= db.rows,
    ensures
        db.givens(upto) == Seq::<(int, int)>::empty(),
    decreases upto,
{
    if upto > 0 {
        lemma_no_givens_without_facts(db, upto - 1);
        lemma_row_without_givens(db, upto - 1, db.cols as int);
    }
}

/// In a database without facts, over a grid of at least two by two cells,
/// nothing is left to derive.
pub proof fn lemma_empty_is_settled(db: FactDbView, runes: Seq<Rune>, rules: Seq<RuleKind>)
    requires
        db.wf(),
        db.rows >= 2,
        db.cols >= 2,
        forall|r: int, c: int| 0 <= r < db.rows && 0 <= c < db.cols ==> db.cells[r][c] is None,
    ensures
        db.settled(runes, rules),
{
    lemma_nothing_follows_from_empty_lines(db, ViewAxis::Position, db.rows as int);
    lemma_nothing_follows_from_empty_lines(db, ViewAxis::Activation, db.cols as int);
    lemma_no_givens_without_facts(db, db.rows as int);
    let givens = db.givens(db.rows as int);
    assert(db.rule_derivations(runes, rules, givens, 0) =~= Seq::<FactView>::empty());
}

} // verus!
