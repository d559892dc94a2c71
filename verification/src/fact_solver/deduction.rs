use vstd::prelude::*;
use crate::fact_solver::fact_db::{
    ConsolidationResult, FactDbView, FactError, FactHandle, Possibilities, SingleFactIntegrationResult,
};
use crate::fact_solver::view::ViewAxis;
use crate::fact_solver::{ContradictionKind, DebugInfo, FactKind, FactReason, FactView};
use crate::rule::{pair_of, tuple_passes, RuleKind};
use crate::rune::Rune;

verus! {

/// The exclusion that a rule draws from a given: the cell cannot hold, because
/// of the given fact and the rule.
pub open spec fn rule_exclusion(
    given: usize,
    rule_index: int,
    position: int,
    activation: int,
    origin: &'static str,
) -> FactView {
    FactView {
        kind: FactKind::ActivationCannotBeOn,
        position: position as nat,
        activation: activation as nat,
        reasons: seq![
            FactReason::Fact(FactHandle(given), DebugInfo { origin }),
            FactReason::Rule(rule_index as usize),
        ],
    }
}

/// Every fact that a list of justifications cites has a number below `bound`.
pub open spec fn cite_below(reasons: Seq<FactReason>, bound: nat) -> bool {
    forall|k: int| 0 <= k < reasons.len() ==> (#[trigger] reasons[k] matches FactReason::Fact(g, _) ==> g.0 < bound)
}

/// A fact about the `k`th cell of a line.
pub open spec fn line_fact(axis: ViewAxis, line: int, k: int, kind: FactKind, reasons: Seq<FactReason>) -> FactView {
    FactView { kind, position: axis.cell(line, k).0 as nat, activation: axis.cell(line, k).1 as nat, reasons }
}

impl FactDbView {
    /// How many lines the grid has when cut along `axis`.
    pub open spec fn lines(self, axis: ViewAxis) -> nat {
        match axis {
            ViewAxis::Position => self.rows,
            ViewAxis::Activation => self.cols,
        }
    }

    /// How many cells each line has when the grid is cut along `axis`.
    pub open spec fn length(self, axis: ViewAxis) -> nat {
        match axis {
            ViewAxis::Position => self.cols,
            ViewAxis::Activation => self.rows,
        }
    }

    /// The cells of one line.
    pub open spec fn lane(self, axis: ViewAxis, line: int) -> Seq<Option<usize>> {
        Seq::new(self.length(axis), |k: int| self.cells[axis.cell(line, k).0][axis.cell(line, k).1])
    }

    /// The kind of the fact that is current in the `k`th cell of a line.
    pub open spec fn lane_kind(self, axis: ViewAxis, line: int, k: int) -> Option<FactKind> {
        self.kind_at(axis.cell(line, k).0, axis.cell(line, k).1)
    }

    /// The first of the first `upto` cells of a line that holds a requirement.
    pub open spec fn first_must_be(self, axis: ViewAxis, line: int, upto: int) -> Option<int>
        decreases upto,
    {
        if upto <= 0 {
            None
        } else {
            match self.first_must_be(axis, line, upto - 1) {
                Some(k) => Some(k),
                None => if self.lane_kind(axis, line, upto - 1) == Some(FactKind::ActivationMustBeOn) {
                    Some(upto - 1)
                } else {
                    None
                },
            }
        }
    }

    /// Whether a cell is still a candidate: it is empty or holds a
    /// requirement, so nothing has ruled it out.
    pub open spec fn is_candidate(self, row: int, col: int) -> bool {
        match self.kind_at(row, col) {
            None => true,
            Some(FactKind::ActivationMustBeOn) => true,
            _ => false,
        }
    }

    /// What a requirement in cell `k0` of a line means for the first `upto`
    /// cells: each other cell that is still a candidate is excluded, for the
    /// one reason that `k0` is required.
    pub open spec fn exclusions(self, axis: ViewAxis, line: int, k0: int, upto: int) -> Seq<FactView>
        decreases upto,
    {
        if upto <= 0 {
            Seq::empty()
        } else {
            let k = upto - 1;
            let before = self.exclusions(axis, line, k0, k);
            if k != k0 && self.is_candidate(axis.cell(line, k).0, axis.cell(line, k).1) {
                before.push(
                    line_fact(
                        axis,
                        line,
                        k,
                        FactKind::ActivationCannotBeOn,
                        seq![
                            FactReason::Fact(
                                FactHandle(self.lane(axis, line)[k0]->0),
                                DebugInfo { origin: "consolidate_views must_be_fact" },
                            ),
                        ],
                    ),
                )
            } else {
                before
            }
        }
    }

    /// How many of the first `upto` cells of a line are empty: none, one (and
    /// which), or more.
    pub open spec fn tally(self, axis: ViewAxis, line: int, upto: int) -> Possibilities<int>
        decreases upto,
    {
        if upto <= 0 {
            Possibilities::Empty
        } else {
            let before = self.tally(axis, line, upto - 1);
            if self.lane_kind(axis, line, upto - 1) is None {
                match before {
                    Possibilities::Empty => Possibilities::Single(upto - 1),
                    _ => Possibilities::Multiple,
                }
            } else {
                before
            }
        }
    }

    /// The exclusions among the first `upto` cells of a line, each as a
    /// justification, in the order of the cells.
    pub open spec fn exclusion_reasons(self, axis: ViewAxis, line: int, upto: int) -> Seq<FactReason>
        decreases upto,
    {
        if upto <= 0 {
            Seq::empty()
        } else {
            let before = self.exclusion_reasons(axis, line, upto - 1);
            if self.lane_kind(axis, line, upto - 1) == Some(FactKind::ActivationCannotBeOn) {
                before.push(
                    FactReason::Fact(
                        FactHandle(self.lane(axis, line)[upto - 1]->0),
                        DebugInfo { origin: "consolidate_views only_one_place_left" },
                    ),
                )
            } else {
                before
            }
        }
    }

    /// The contradiction "no options left" for each of the first `upto` cells
    /// of a line, all with the same justifications.
    pub open spec fn dead_ends(self, axis: ViewAxis, line: int, reasons: Seq<FactReason>, upto: int) -> Seq<
        FactView,
    >
        decreases upto,
    {
        if upto <= 0 {
            Seq::empty()
        } else {
            self.dead_ends(axis, line, reasons, upto - 1).push(
                line_fact(
                    axis,
                    line,
                    upto - 1,
                    FactKind::Contradiction(ContradictionKind::NoOptionsLeft),
                    reasons,
                ),
            )
        }
    }

    /// What follows from a line having exactly one of its cells required.
    /// With a requirement on the line, every other candidate is excluded.
    /// Without one, a single empty cell is required, justified by all the
    /// exclusions on the line; and a line with no empty cell at all is
    /// contradictory in each of its cells.
    pub open spec fn line_derivations(self, axis: ViewAxis, line: int) -> Seq<FactView> {
        let n = self.length(axis) as int;
        match self.first_must_be(axis, line, n) {
            Some(k0) => self.exclusions(axis, line, k0, n),
            None => match self.tally(axis, line, n) {
                Possibilities::Single(k) => seq![
                    line_fact(
                        axis,
                        line,
                        k,
                        FactKind::ActivationMustBeOn,
                        self.exclusion_reasons(axis, line, n),
                    ),
                ],
                Possibilities::Empty => self.dead_ends(axis, line, self.exclusion_reasons(axis, line, n), n),
                Possibilities::Multiple => Seq::empty(),
            },
        }
    }

    /// The derivations of the first `upto` lines, line after line.
    pub open spec fn unique_derivations(self, axis: ViewAxis, upto: int) -> Seq<FactView>
        decreases upto,
    {
        if upto <= 0 {
            Seq::empty()
        } else {
            self.unique_derivations(axis, upto - 1) + self.line_derivations(axis, upto - 1)
        }
    }

    /// What one rule says, given a requirement, about where `other` may
    /// stand: among the first `upto` positions, each candidate that does not
    /// pass the rule together with the given is excluded.
    pub open spec fn candidate_exclusions(
        self,
        runes: Seq<Rune>,
        rule: RuleKind,
        rule_index: int,
        given: (int, int),
        other: int,
        origin: &'static str,
        upto: int,
    ) -> Seq<FactView>
        decreases upto,
    {
        if upto <= 0 || other >= self.cols {
            Seq::empty()
        } else {
            let p = upto - 1;
            let before = self.candidate_exclusions(runes, rule, rule_index, given, other, origin, p);
            if self.is_candidate(p, other) && !tuple_passes(
                rule,
                runes,
                (given.0 as nat, given.1 as nat),
                (p as nat, other as nat),
            ) {
                before.push(rule_exclusion(self.cells[given.0][given.1]->0, rule_index, p, other, origin))
            } else {
                before
            }
        }
    }

    /// What one rule draws from one requirement. A rule on two activations
    /// speaks when the given activation is one of them, and then of the
    /// other; when it is both, it speaks twice. The rule on runes speaks when
    /// the given position carries its first rune: of the activation that
    /// follows the given one, or, where none follows, against the given cell
    /// itself.
    pub open spec fn rule_given_derivations(
        self,
        runes: Seq<Rune>,
        rule: RuleKind,
        rule_index: int,
        given: (int, int),
    ) -> Seq<FactView> {
        match rule {
            RuleKind::RuneFollowsImmediately { first, .. } => if runes[given.0] == first {
                if given.1 + 1 < 12 {
                    self.candidate_exclusions(
                        runes,
                        rule,
                        rule_index,
                        given,
                        given.1 + 1,
                        "consolidate_rules runes",
                        self.rows as int,
                    )
                } else {
                    seq![
                        rule_exclusion(
                            self.cells[given.0][given.1]->0,
                            rule_index,
                            given.0,
                            given.1,
                            "consolidate_rules runes",
                        ),
                    ]
                }
            } else {
                Seq::empty()
            },
            _ => {
                let (first, second) = pair_of(rule).unwrap();
                let forth = if first == given.1 {
                    self.candidate_exclusions(
                        runes,
                        rule,
                        rule_index,
                        given,
                        second as int,
                        "consolidate_rules",
                        self.rows as int,
                    )
                } else {
                    Seq::empty()
                };
                let back = if second == given.1 {
                    self.candidate_exclusions(
                        runes,
                        rule,
                        rule_index,
                        given,
                        first as int,
                        "consolidate_rules",
                        self.rows as int,
                    )
                } else {
                    Seq::empty()
                };
                forth + back
            },
        }
    }

    /// What the first `upto` rules draw from one requirement, rule after rule.
    pub open spec fn given_derivations(self, runes: Seq<Rune>, rules: Seq<RuleKind>, given: (int, int), upto: int)
        -> Seq<FactView>
        decreases upto,
    {
        if upto <= 0 {
            Seq::empty()
        } else {
            self.given_derivations(runes, rules, given, upto - 1) + self.rule_given_derivations(
                runes,
                rules[upto - 1],
                upto - 1,
                given,
            )
        }
    }

    /// The requirements among the first `upto` cells of a row, each as the
    /// pair of its row and column.
    pub open spec fn row_givens(self, row: int, upto: int) -> Seq<(int, int)>
        decreases upto,
    {
        if upto <= 0 {
            Seq::empty()
        } else {
            let before = self.row_givens(row, upto - 1);
            if self.kind_at(row, upto - 1) == Some(FactKind::ActivationMustBeOn) {
                before.push((row, upto - 1))
            } else {
                before
            }
        }
    }

    /// The requirements in the first `upto` rows, row by row and, in a row,
    /// activation by activation.
    pub open spec fn givens(self, upto: int) -> Seq<(int, int)>
        decreases upto,
    {
        if upto <= 0 {
            Seq::empty()
        } else {
            self.givens(upto - 1) + self.row_givens(upto - 1, self.cols as int)
        }
    }

    /// What the rules draw from the first `upto` of a list of requirements,
    /// one requirement after the other.
    pub open spec fn rule_derivations(
        self,
        runes: Seq<Rune>,
        rules: Seq<RuleKind>,
        givens: Seq<(int, int)>,
        upto: int,
    ) -> Seq<FactView>
        decreases upto,
    {
        if upto <= 0 {
            Seq::empty()
        } else {
            self.rule_derivations(runes, rules, givens, upto - 1) + self.given_derivations(
                runes,
                rules,
                givens[upto - 1],
                rules.len() as int,
            )
        }
    }

    /// The activation that is required on a position, if one is; where the
    /// database requires several, the last of them.
    pub open spec fn last_must_be(self, row: int, upto: int) -> Option<nat>
        decreases upto,
    {
        if upto <= 0 {
            None
        } else if self.kind_at(row, upto - 1) == Some(FactKind::ActivationMustBeOn) {
            Some((upto - 1) as nat)
        } else {
            self.last_must_be(row, upto - 1)
        }
    }

    /// The placement that the requirements of the database make, position by
    /// position.
    pub open spec fn fixed_slots(self) -> Seq<Option<nat>> {
        Seq::new(
            12,
            |p: int|
                if p < self.rows {
                    self.last_must_be(p, self.cols as int)
                } else {
                    None
                },
        )
    }

    /// The empty cells among the first `upto` cells of a line, by their place
    /// on the line, in order.
    pub open spec fn open_places(self, axis: ViewAxis, line: int, upto: int) -> Seq<int>
        decreases upto,
    {
        if upto <= 0 {
            Seq::empty()
        } else {
            let before = self.open_places(axis, line, upto - 1);
            if self.lane_kind(axis, line, upto - 1) is None {
                before.push(upto - 1)
            } else {
                before
            }
        }
    }

    /// What writing the first `upto` of a list of facts into their cells does,
    /// one after the other. The first fact that makes a new contradiction
    /// current ends it, with that contradiction as the error. Otherwise the
    /// result says whether any fact changed a cell.
    pub open spec fn integrate_all(self, facts: Seq<FactView>, upto: int) -> (
        FactDbView,
        Result<ConsolidationResult, FactError>,
    )
        decreases upto,
    {
        if upto <= 0 {
            (self, Ok(ConsolidationResult::Unchanged))
        } else {
            let (before, status) = self.integrate_all(facts, upto - 1);
            match status {
                Err(_) => (before, status),
                Ok(changed) => {
                    let (after, outcome) = before.integrate_step(facts[upto - 1]);
                    match outcome {
                        SingleFactIntegrationResult::Integrated(h) => if after.facts[h.0 as int].kind
                            is Contradiction {
                            (after, Err(FactError::Contradiction(h)))
                        } else {
                            (after, Ok(ConsolidationResult::Changes))
                        },
                        SingleFactIntegrationResult::Unchanged(_) => (after, Ok(changed)),
                    }
                },
            }
        }
    }

    /// One pass over the database: what one requirement per position means,
    /// then what one requirement per activation means, then what the rules
    /// mean. Each of the three collects its derivations from the database as
    /// it finds it and then writes them in; the next one starts from the
    /// result. A contradiction ends the pass.
    pub open spec fn pass(self, runes: Seq<Rune>, rules: Seq<RuleKind>) -> (
        FactDbView,
        Result<ConsolidationResult, FactError>,
    ) {
        let first = self.unique_derivations(ViewAxis::Position, self.rows as int);
        let (one, by_position) = self.integrate_all(first, first.len() as int);
        match by_position {
            Err(_) => (one, by_position),
            Ok(a) => {
                let second = one.unique_derivations(ViewAxis::Activation, one.cols as int);
                let (two, by_activation) = one.integrate_all(second, second.len() as int);
                match by_activation {
                    Err(_) => (two, by_activation),
                    Ok(b) => {
                        let givens = two.givens(two.rows as int);
                        let third = two.rule_derivations(runes, rules, givens, givens.len() as int);
                        let (three, by_rule) = two.integrate_all(third, third.len() as int);
                        match by_rule {
                            Err(_) => (three, by_rule),
                            Ok(c) => if a == ConsolidationResult::Unchanged && b == ConsolidationResult::Unchanged
                                && c == ConsolidationResult::Unchanged {
                                (three, Ok(ConsolidationResult::Unchanged))
                            } else {
                                (three, Ok(ConsolidationResult::Changes))
                            },
                        }
                    },
                }
            },
        }
    }

    /// Pass after pass, at most `fuel` of them, until one changes nothing or
    /// meets a contradiction.
    pub open spec fn passes(self, runes: Seq<Rune>, rules: Seq<RuleKind>, fuel: nat) -> (
        FactDbView,
        Result<(), FactError>,
    )
        decreases fuel,
    {
        if fuel == 0 {
            (self, Ok(()))
        } else {
            let (after, status) = self.pass(runes, rules);
            match status {
                Err(e) => (after, Err(e)),
                Ok(ConsolidationResult::Unchanged) => (after, Ok(())),
                Ok(ConsolidationResult::Changes) => after.passes(runes, rules, (fuel - 1) as nat),
            }
        }
    }

    /// The cells that hold no fact, each as twelve times its row plus its
    /// column.
    pub open spec fn open_cells(self) -> Set<int> {
        Set::new(
            |k: int|
                0 <= k < 144 && k / 12 < self.rows && k % 12 < self.cols && self.cells[k / 12][k % 12] is None,
        )
    }

    /// Consolidation to the end: passes until one changes nothing. Every pass
    /// that changes something fills a cell, so one pass more than there are
    /// empty cells is enough.
    pub open spec fn consolidated(self, runes: Seq<Rune>, rules: Seq<RuleKind>) -> (
        FactDbView,
        Result<(), FactError>,
    ) {
        self.passes(runes, rules, self.open_cells().len() + 1)
    }

    /// Nothing is left to derive: a pass changes nothing and meets no
    /// contradiction.
    pub open spec fn settled(self, runes: Seq<Rune>, rules: Seq<RuleKind>) -> bool {
        self.pass(runes, rules) == (self, Ok::<ConsolidationResult, FactError>(ConsolidationResult::Unchanged))
    }

    /// What taking in one fact from outside does: the fact is written into
    /// its cell; if that makes a new contradiction current, this is the
    /// error; otherwise the database is consolidated.
    pub open spec fn integrated(self, fact: FactView, runes: Seq<Rune>, rules: Seq<RuleKind>) -> (
        FactDbView,
        Result<(), FactError>,
    ) {
        let (after, outcome) = self.integrate_step(fact);
        match outcome {
            SingleFactIntegrationResult::Integrated(h) if after.facts[h.0 as int].kind is Contradiction => (
                after,
                Err(FactError::Contradiction(h)),
            ),
            _ => after.consolidated(runes, rules),
        }
    }

    /// The cell holds a contradiction.
    pub open spec fn contradicted(self, row: int, col: int) -> bool {
        self.kind_at(row, col) is Some && self.kind_at(row, col)->0 is Contradiction
    }

    /// `later` may have come from this database by writing facts in: the grid
    /// has the same shape; every fact written down is still there under its
    /// number; a cell that held a fact holds the same fact, or a
    /// contradiction; and a cell that held a contradiction holds the same
    /// one.
    pub open spec fn extended_by(self, later: FactDbView) -> bool {
        &&& later.rows == self.rows
        &&& later.cols == self.cols
        &&& self.facts.len() <= later.facts.len()
        &&& forall|h: int| 0 <= h < self.facts.len() ==> #[trigger] later.facts[h] == self.facts[h]
        &&& forall|r: int, c: int|
            0 <= r < self.rows && 0 <= c < self.cols && #[trigger] self.cells[r][c] is Some ==> later.cells[r][c]
                == self.cells[r][c] || later.contradicted(r, c)
        &&& forall|r: int, c: int|
            0 <= r < self.rows && 0 <= c < self.cols && #[trigger] self.contradicted(r, c) ==> later.cells[r][c]
                == self.cells[r][c]
    }

    /// What holds of a database and what comes of it by writing facts in,
    /// with or without an error: the result is sound and only adds to the
    /// database; no more cells are empty than before; a reported change has
    /// filled a cell; no reported change means that nothing changed; and an
    /// error names a contradiction that is written down.
    pub open spec fn progress(self, after: FactDbView, status: Result<ConsolidationResult, FactError>) -> bool {
        &&& after.wf()
        &&& self.extended_by(after)
        &&& after.open_cells().len() <= self.open_cells().len()
        &&& status == Ok::<ConsolidationResult, FactError>(ConsolidationResult::Changes)
            ==> after.open_cells().len() < self.open_cells().len()
        &&& status == Ok::<ConsolidationResult, FactError>(ConsolidationResult::Unchanged) ==> after == self
        &&& status matches Err(FactError::Contradiction(h)) ==> h.0 < after.facts.len()
            && after.facts[h.0 as int].kind is Contradiction
    }

    /// Every fact that `fact` cites is written down in this database.
    pub open spec fn cites_known(self, fact: FactView) -> bool {
        cite_below(fact.reasons, self.facts.len())
    }

    /// All facts of a list cite only facts that are written down in this
    /// database.
    pub open spec fn cites_all(self, facts: Seq<FactView>) -> bool {
        forall|i: int| 0 <= i < facts.len() ==> self.cites_known(#[trigger] facts[i])
    }

    /// Every fact cites only facts that were written down before it: the
    /// order of the list is an order of the justifications.
    pub open spec fn well_founded(self) -> bool {
        forall|h: int| 0 <= h < self.facts.len() ==> cite_below((#[trigger] self.facts[h]).reasons, h as nat)
    }

    /// A fact is about a cell of this grid.
    pub open spec fn holds(self, fact: FactView) -> bool {
        fact.position < self.rows && fact.activation < self.cols
    }

    /// All facts of a list are about cells of this grid.
    pub open spec fn holds_all(self, facts: Seq<FactView>) -> bool {
        forall|i: int| 0 <= i < facts.len() ==> self.holds(#[trigger] facts[i])
    }
}

} // verus!
