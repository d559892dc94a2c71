use vstd::prelude::*;
use vstd::string::StringExecFns;
use crate::activation::Activation;
use crate::assignment::{array_slots, first_clash, injective, option_index, Assignment, AssignmentError};
use crate::fact_solver::deduction::{cite_below, line_fact, rule_exclusion};
use crate::fact_solver::explainer::{explain_fact_d, explanation, line_views, ExplanationLine};
use crate::fact_solver::laws::{
    lemma_error_sticks, lemma_extended_by_chains, lemma_integrate_all, lemma_integrate_all_keeps_order,
    lemma_integrate_step, lemma_integrate_step_keeps_order, lemma_progress_chains,
    lemma_settled_places_no_activation_twice,
};
use crate::fact_solver::view::{ChooseView, ViewAxis};
use crate::fact_solver::{
    fact_views, same_strength, ContradictionKind, DebugInfo, Fact, FactKind, FactReason, FactView,
};
use crate::grid::{
    grid_cells, grid_clone, grid_cols, grid_column, grid_get, grid_new, grid_row, grid_rows, grid_set,
    grid_shape, FactGrid,
};
use crate::index::RunePosition;
use crate::lock::RuneLock;
use crate::rule::RuleKind;
use crate::text::{decimal_text, digits_of};

verus! {

/// The number under which a fact database keeps a fact. Numbers are given out
/// in the order in which the facts are written down, from zero.
#[derive(Clone, Debug, Copy, Hash, PartialEq, Eq, Structural, PartialOrd, Ord)]
pub struct FactHandle(pub usize);

/// A handle as people read it: the letter F and the number.
pub open spec fn handle_text(handle: usize) -> Seq<char> {
    "F"@ + digits_of(handle as nat)
}

impl FactHandle {
    /// The handle with the given number.
    pub fn from_raw(node: usize) -> (handle: FactHandle)
        ensures
            handle == FactHandle(node),
    {
        Self(node)
    }

    /// The handle as people read it.
    pub fn to_text(&self) -> (text: String)
        ensures
            text@ == handle_text(self.0),
    {
        let number = decimal_text(self.0);
        String::from_str("F").concat(number.as_str())
    }
}

/// How many candidates were seen: none, one (and which), or more.
#[derive(Debug)]
pub enum Possibilities<T> {
    Empty,
    Single(T),
    Multiple,
}

/// Whether writing facts in changed the database.
#[derive(Debug, Clone, Copy, PartialEq, Eq, Structural)]
pub enum ConsolidationResult {
    Changes,
    Unchanged,
}

/// What writing one fact into its cell did, with the fact that is current
/// there afterwards: nothing, or the cell has a new current fact.
#[derive(Debug, Clone, Copy, PartialEq, Eq, Structural)]
pub enum SingleFactIntegrationResult {
    Unchanged(FactHandle),
    Integrated(FactHandle),
}

/// The one way in which taking in facts fails: a contradiction has become
/// current in some cell.
#[derive(Debug, Clone, Copy, PartialEq, Eq, Structural)]
pub enum FactError {
    Contradiction(FactHandle),
}

impl<T> Possibilities<T> {
    /// Counts one more candidate: none becomes this one, one becomes many.
    pub fn add(&mut self, it: T)
        ensures
            *final(self) == match *old(self) {
                Possibilities::Empty => Possibilities::Single(it),
                Possibilities::Single(_) => Possibilities::Multiple,
                Possibilities::Multiple => Possibilities::Multiple,
            },
    {
        let next = match self {
            Possibilities::Empty => Possibilities::Single(it),
            Possibilities::Single(_) => Possibilities::Multiple,
            Possibilities::Multiple => Possibilities::Multiple,
        };
        *self = next;
    }
}

/// What a fact database holds, as the contracts see it: every fact ever
/// written down, in order, and for each cell of the grid the number of the
/// fact that is current there.
pub struct FactDbView {
    pub facts: Seq<FactView>,
    pub cells: Seq<Seq<Option<usize>>>,
    pub rows: nat,
    pub cols: nat,
}

impl FactDbView {
    /// The grid has the stated shape, at most twelve by twelve; the fact that
    /// is current in a cell has been written down and is about that cell; and
    /// every fact is about a cell of the grid.
    pub open spec fn wf(self) -> bool {
        &&& self.rows <= 12
        &&& self.cols <= 12
        &&& self.cells.len() == self.rows
        &&& forall|r: int| 0 <= r < self.rows ==> (#[trigger] self.cells[r]).len() == self.cols
        &&& forall|r: int, c: int|
            0 <= r < self.rows && 0 <= c < self.cols ==> (#[trigger] self.cells[r][c] matches Some(h) ==> h
                < self.facts.len() && self.facts[h as int].position == r && self.facts[h as int].activation == c)
        &&& forall|h: int|
            0 <= h < self.facts.len() ==> (#[trigger] self.facts[h]).position < self.rows && self.facts[h].activation
                < self.cols
    }

    /// The kind of the fact that is current in a cell, if the cell has one.
    pub open spec fn kind_at(self, row: int, col: int) -> Option<FactKind> {
        match self.cells[row][col] {
            Some(h) => Some(self.facts[h as int].kind),
            None => None,
        }
    }

    /// The database after `fact` is written down and made current in its cell.
    pub open spec fn stored(self, fact: FactView) -> FactDbView {
        FactDbView {
            facts: self.facts.push(fact),
            cells: self.cells.update(
                fact.position as int,
                self.cells[fact.position as int].update(fact.activation as int, Some(self.facts.len() as usize)),
            ),
            ..self
        }
    }

    /// The contradiction that two colliding facts about one cell give rise
    /// to: it cites the fact that was current and the one that came in.
    pub open spec fn collision(self, fact: FactView, existing: usize) -> FactView {
        FactView {
            kind: FactKind::Contradiction(ContradictionKind::ContradictingRequirements),
            reasons: seq![
                FactReason::Fact(FactHandle(existing), DebugInfo { origin: "integrate_single_fact" }),
                FactReason::Fact(
                    FactHandle(self.facts.len() as usize),
                    DebugInfo { origin: "integrate_single_fact" },
                ),
            ],
            ..fact
        }
    }

    /// What writing one fact into its cell does, and which fact is current
    /// there afterwards. An empty cell takes the fact. A fact of the same
    /// strength as the current one changes nothing. A contradiction replaces
    /// anything weaker and is replaced by nothing. A requirement that meets
    /// an exclusion, or the other way round, is written down and followed by
    /// the contradiction of the two, which becomes current.
    pub open spec fn integrate_step(self, fact: FactView) -> (FactDbView, SingleFactIntegrationResult) {
        let next = self.facts.len() as usize;
        match self.cells[fact.position as int][fact.activation as int] {
            None => (self.stored(fact), SingleFactIntegrationResult::Integrated(FactHandle(next))),
            Some(h) => {
                let existing = self.facts[h as int].kind;
                if same_strength(existing, fact.kind) {
                    (self, SingleFactIntegrationResult::Unchanged(FactHandle(h)))
                } else if fact.kind is Contradiction {
                    (self.stored(fact), SingleFactIntegrationResult::Integrated(FactHandle(next)))
                } else if existing is Contradiction {
                    (self, SingleFactIntegrationResult::Unchanged(FactHandle(h)))
                } else {
                    (
                        self.stored(fact).stored(self.collision(fact, h)),
                        SingleFactIntegrationResult::Integrated(FactHandle((next + 1) as usize)),
                    )
                }
            },
        }
    }
}

/// The facts known about a lock: a grid with one cell for each pair of a
/// position (row) and an activation (column), and the list of all facts ever
/// written down. A cell names the fact that is current for it; facts that
/// were current once stay in the list, since later facts may cite them.
pub struct FactDb {
    facts: Vec<Fact>,
    fact_lookup: FactGrid,
}

impl View for FactDb {
    type V = FactDbView;

    closed spec fn view(&self) -> FactDbView {
        FactDbView {
            facts: Seq::new(self.facts@.len(), |i: int| self.facts@[i]@),
            cells: grid_cells(&self.fact_lookup),
            rows: grid_shape(&self.fact_lookup).0,
            cols: grid_shape(&self.fact_lookup).1,
        }
    }
}

impl FactDb {
    /// The database is sound as a value: see [`FactDbView::wf`].
    pub open spec fn wf(&self) -> bool {
        self@.wf()
    }

    /// A database without facts over a grid of `runes` positions and
    /// `activations` activations.
    pub fn new(runes: usize, activations: usize) -> (db: Self)
        requires
            runes <= 12,
            activations <= 12,
        ensures
            db.wf(),
            db@.facts.len() == 0,
            db@.well_founded(),
            db@.rows == runes,
            db@.cols == activations,
            forall|r: int, c: int| 0 <= r < runes && 0 <= c < activations ==> db@.cells[r][c] is None,
    {
        Self { facts: Vec::new(), fact_lookup: grid_new(runes, activations) }
    }

    /// Writes one fact into its cell and looks no further. Whatever the fact,
    /// a cell that holds a contradiction keeps it, and no fact that was
    /// written down is lost.
    pub fn integrate_single_fact(&mut self, fact: Fact) -> (outcome: SingleFactIntegrationResult)
        requires
            old(self).wf(),
            fact@.position < old(self)@.rows,
            fact@.activation < old(self)@.cols,
        ensures
            final(self).wf(),
            (final(self)@, outcome) == old(self)@.integrate_step(fact@),
            old(self)@.extended_by(final(self)@),
            old(self)@.well_founded() && old(self)@.cites_known(fact@) ==> final(self)@.well_founded(),
    {
        let ghost start = self@;
        let ghost incoming = fact@;
        let outcome = self.write_in(fact);
        proof {
            assert(self.facts@.len() == self.facts.len());
            lemma_integrate_step(start, incoming);
            if start.well_founded() && start.cites_known(incoming) {
                lemma_integrate_step_keeps_order(start, incoming);
            }
        }
        outcome
    }

    /// Writes one fact into its cell.
    fn write_in(&mut self, fact: Fact) -> (outcome: SingleFactIntegrationResult)
        requires
            old(self).wf(),
            fact@.position < old(self)@.rows,
            fact@.activation < old(self)@.cols,
        ensures
            final(self).wf(),
            (final(self)@, outcome) == old(self)@.integrate_step(fact@),
    {
        let row = fact.position().index();
        let col = fact.activation().index();
        let ghost before = self@;
        let next = self.facts.len();
        match grid_get(&self.fact_lookup, row, col) {
            None => {
                self.facts.push(fact);
                grid_set(&mut self.fact_lookup, row, col, Some(next));
                assert(self@.facts =~= before.stored(fact@).facts);
                SingleFactIntegrationResult::Integrated(FactHandle(next))
            },
            Some(h) => {
                let existing = self.facts[h].kind();
                let incoming = fact.kind();
                if existing.same_strength_as(&incoming) {
                    SingleFactIntegrationResult::Unchanged(FactHandle(h))
                } else if incoming.is_contradiction() {
                    self.facts.push(fact);
                    grid_set(&mut self.fact_lookup, row, col, Some(next));
                    assert(self@.facts =~= before.stored(fact@).facts);
                    SingleFactIntegrationResult::Integrated(FactHandle(next))
                } else if existing.is_contradiction() {
                    SingleFactIntegrationResult::Unchanged(FactHandle(h))
                } else {
                    let mut reasons: Vec<FactReason> = Vec::new();
                    reasons.push(FactReason::Fact(FactHandle(h), DebugInfo { origin: "integrate_single_fact" }));
                    reasons.push(FactReason::Fact(FactHandle(next), DebugInfo { origin: "integrate_single_fact" }));
                    let contradiction = Fact::new(
                        FactKind::Contradiction(ContradictionKind::ContradictingRequirements),
                        fact.activation(),
                        fact.position(),
                        reasons,
                    );
                    let ghost incoming_view = fact@;
                    self.facts.push(fact);
                    self.facts.push(contradiction);
                    let last = self.facts.len() - 1;
                    grid_set(&mut self.fact_lookup, row, col, Some(last));
                    proof {
                        let target = before.stored(incoming_view).stored(before.collision(incoming_view, h));
                        assert(contradiction@.reasons =~= before.collision(incoming_view, h).reasons);
                        assert(self@.facts =~= target.facts);
                        assert(self@.cells[row as int] =~= target.cells[row as int]);
                        assert(self@.cells =~= target.cells);
                    }
                    SingleFactIntegrationResult::Integrated(FactHandle(last))
                }
            },
        }
    }
}

/// The fact about the `k`th cell of a line.
fn fact_on(axis: ViewAxis, line: usize, k: usize, kind: FactKind, reasons: Vec<FactReason>) -> (fact: Fact)
    requires
        line < 12,
        k < 12,
    ensures
        fact@ == line_fact(axis, line as int, k as int, kind, reasons@),
{
    let (row, col) = axis.cell_of(line, k);
    Fact::new(kind, Activation::new(col as u8).unwrap(), RunePosition::new(row), reasons)
}

impl FactDb {
    /// The cells of one line, as the numbers of their current facts.
    fn lane_raw(&self, axis: ViewAxis, line: usize) -> (lane: Vec<Option<usize>>)
        requires
            self.wf(),
            line < self@.lines(axis),
        ensures
            lane@ == self@.lane(axis, line as int),
    {
        match axis {
            ViewAxis::Position => {
                let lane = grid_row(&self.fact_lookup, line);
                assert(lane@ =~= self@.lane(axis, line as int));
                lane
            },
            ViewAxis::Activation => {
                let lane = grid_column(&self.fact_lookup, line);
                assert(lane@ =~= self@.lane(axis, line as int));
                lane
            },
        }
    }

    /// The kind of the fact that a cell names.
    fn kind_in(&self, cell: Option<usize>) -> (kind: Option<FactKind>)
        requires
            cell matches Some(h) ==> h < self@.facts.len(),
        ensures
            kind == match cell {
                Some(h) => Some(self@.facts[h as int].kind),
                None => None::<FactKind>,
            },
    {
        match cell {
            Some(h) => Some(self.facts[h].kind()),
            None => None,
        }
    }

    /// Adds to `out` what follows from one line having exactly one of its
    /// cells required.
    fn derive_line(&self, axis: ViewAxis, line: usize, out: &mut Vec<Fact>)
        requires
            self.wf(),
            line < self@.lines(axis),
            self@.holds_all(fact_views(old(out)@)),
            self@.cites_all(fact_views(old(out)@)),
        ensures
            fact_views(final(out)@) == fact_views(old(out)@) + self@.line_derivations(axis, line as int),
            self@.holds_all(fact_views(final(out)@)),
            self@.cites_all(fact_views(final(out)@)),
    {
        let ghost db = self@;
        let ghost base = fact_views(out@);
        let ghost l = line as int;
        let lane = self.lane_raw(axis, line);
        let n = lane.len();
        let mut found: Option<usize> = None;
        let mut k: usize = 0;
        while k < n
            invariant
                self.wf(),
                db == self@,
                l == line,
                line < db.lines(axis),
                lane@ == db.lane(axis, l),
                n == lane.len(),
                k <= n,
                match found {
                    Some(f) => db.first_must_be(axis, l, k as int) == Some(f as int) && f < k && db.lane_kind(
                        axis,
                        l,
                        f as int,
                    ) == Some(FactKind::ActivationMustBeOn),
                    None => db.first_must_be(axis, l, k as int) is None,
                },
            decreases n - k,
        {
            if found.is_none() {
                let kind = self.kind_in(lane[k]);
                if let Some(FactKind::ActivationMustBeOn) = kind {
                    found = Some(k);
                }
            }
            k += 1;
        }
        match found {
            Some(k0) => {
                let given = lane[k0].unwrap_or(0);
                assert(db.lane(axis, l)[k0 as int] is Some);
                let mut k: usize = 0;
                while k < n
                    invariant
                        self.wf(),
                        db == self@,
                        l == line,
                        line < db.lines(axis),
                        lane@ == db.lane(axis, l),
                        n == lane.len(),
                        k <= n,
                        k0 < n,
                        Some(given) == db.lane(axis, l)[k0 as int],
                        fact_views(out@) == base + db.exclusions(axis, l, k0 as int, k as int),
                        db.holds_all(fact_views(out@)),
                        db.cites_all(fact_views(out@)),
                    decreases n - k,
                {
                    if k != k0 {
                        let candidate = match self.kind_in(lane[k]) {
                            None => true,
                            Some(FactKind::ActivationMustBeOn) => true,
                            _ => false,
                        };
                        if candidate {
                            let reasons = vec![
                                FactReason::Fact(
                                    FactHandle(given),
                                    DebugInfo { origin: "consolidate_views must_be_fact" },
                                ),
                            ];
                            let ghost before = out@;
                            let fact = fact_on(axis, line, k, FactKind::ActivationCannotBeOn, reasons);
                            out.push(fact);
                            proof {
                                assert(reasons@ =~= seq![
                                    FactReason::Fact(
                                        FactHandle(db.lane(axis, l)[k0 as int]->0),
                                        DebugInfo { origin: "consolidate_views must_be_fact" },
                                    ),
                                ]);
                                assert(fact_views(out@) =~= fact_views(before).push(fact@));
                            }
                        }
                    }
                    k += 1;
                }
            },
            None => {
                let mut possibility: Possibilities<usize> = Possibilities::Empty;
                let mut reasons: Vec<FactReason> = Vec::new();
                let mut k: usize = 0;
                while k < n
                    invariant
                        self.wf(),
                        db == self@,
                        l == line,
                        line < db.lines(axis),
                        lane@ == db.lane(axis, l),
                        n == lane.len(),
                        k <= n,
                        match possibility {
                            Possibilities::Empty => db.tally(axis, l, k as int) == Possibilities::<int>::Empty,
                            Possibilities::Single(p) => db.tally(axis, l, k as int) == Possibilities::Single(
                                p as int,
                            ) && p < k,
                            Possibilities::Multiple => db.tally(axis, l, k as int) == Possibilities::<
                                int,
                            >::Multiple,
                        },
                        reasons@ == db.exclusion_reasons(axis, l, k as int),
                        cite_below(reasons@, db.facts.len()),
                    decreases n - k,
                {
                    match lane[k] {
                        Some(h) => {
                            if let Some(FactKind::ActivationCannotBeOn) = self.kind_in(lane[k]) {
                                reasons.push(
                                    FactReason::Fact(
                                        FactHandle(h),
                                        DebugInfo { origin: "consolidate_views only_one_place_left" },
                                    ),
                                );
                            }
                        },
                        None => {
                            possibility.add(k);
                        },
                    }
                    k += 1;
                }
                match possibility {
                    Possibilities::Single(open) => {
                        let ghost before = out@;
                        let fact = fact_on(axis, line, open, FactKind::ActivationMustBeOn, reasons);
                        out.push(fact);
                        proof {
                            assert(fact_views(out@) =~= fact_views(before).push(fact@));
                            assert(fact_views(before).push(fact@) =~= base + seq![fact@]);
                        }
                    },
                    Possibilities::Empty => {
                        let mut k: usize = 0;
                        while k < n
                            invariant
                                self.wf(),
                                db == self@,
                                l == line,
                                line < db.lines(axis),
                                n == db.length(axis),
                                k <= n,
                                cite_below(reasons@, db.facts.len()),
                                fact_views(out@) == base + db.dead_ends(axis, l, reasons@, k as int),
                                db.holds_all(fact_views(out@)),
                                db.cites_all(fact_views(out@)),
                            decreases n - k,
                        {
                            let mut copy: Vec<FactReason> = Vec::new();
                            let mut i: usize = 0;
                            while i < reasons.len()
                                invariant
                                    i <= reasons.len(),
                                    copy@ == reasons@.take(i as int),
                                decreases reasons.len() - i,
                            {
                                copy.push(reasons[i]);
                                assert(reasons@.take(i + 1) =~= reasons@.take(i as int).push(reasons@[i as int]));
                                i += 1;
                            }
                            assert(reasons@.take(i as int) =~= reasons@);
                            let ghost before = out@;
                            let fact = fact_on(
                                axis,
                                line,
                                k,
                                FactKind::Contradiction(ContradictionKind::NoOptionsLeft),
                                copy,
                            );
                            out.push(fact);
                            assert(fact_views(out@) =~= fact_views(before).push(fact@));
                            k += 1;
                        }
                    },
                    Possibilities::Multiple => {
                        assert(fact_views(out@) =~= base + Seq::<FactView>::empty());
                    },
                }
            },
        }
    }

    /// What follows, line by line, from each line having exactly one of its
    /// cells required, as the database stands.
    fn collect_unique(&self, axis: ViewAxis) -> (out: Vec<Fact>)
        requires
            self.wf(),
        ensures
            fact_views(out@) == self@.unique_derivations(axis, self@.lines(axis) as int),
            self@.holds_all(fact_views(out@)),
            self@.cites_all(fact_views(out@)),
    {
        let lines = match axis {
            ViewAxis::Position => grid_rows(&self.fact_lookup),
            ViewAxis::Activation => grid_cols(&self.fact_lookup),
        };
        let mut out: Vec<Fact> = Vec::new();
        let mut line: usize = 0;
        assert(fact_views(out@) =~= self@.unique_derivations(axis, 0));
        while line < lines
            invariant
                self.wf(),
                lines == self@.lines(axis),
                line <= lines,
                fact_views(out@) == self@.unique_derivations(axis, line as int),
                self@.holds_all(fact_views(out@)),
                self@.cites_all(fact_views(out@)),
            decreases lines - line,
        {
            self.derive_line(axis, line, &mut out);
            line += 1;
        }
        out
    }
}

/// The cells of a list of requirements, each as the pair of its row and
/// column.
pub open spec fn given_cells(givens: Seq<((RunePosition, Activation), FactHandle)>) -> Seq<(int, int)> {
    Seq::new(givens.len(), |i: int| (givens[i].0.0@ as int, givens[i].0.1@ as int))
}

impl FactDb {
    /// Writes a list of facts into their cells, one after the other, and
    /// stops at the first that makes a new contradiction current.
    pub fn integrate_consolidation(&mut self, integrations: Vec<Fact>) -> (status: Result<
        ConsolidationResult,
        FactError,
    >)
        requires
            old(self).wf(),
            old(self)@.holds_all(fact_views(integrations@)),
        ensures
            final(self).wf(),
            (final(self)@, status) == old(self)@.integrate_all(
                fact_views(integrations@),
                integrations@.len() as int,
            ),
            old(self)@.progress(final(self)@, status),
            old(self)@.well_founded() && old(self)@.cites_all(fact_views(integrations@))
                ==> final(self)@.well_founded(),
    {
        let ghost start = self@;
        let ghost views = fact_views(integrations@);
        let mut result = ConsolidationResult::Unchanged;
        let mut i: usize = 0;
        while i < integrations.len()
            invariant
                self.wf(),
                start.wf(),
                start == old(self)@,
                i <= integrations.len(),
                views == fact_views(integrations@),
                start.holds_all(views),
                self@.rows == start.rows,
                self@.cols == start.cols,
                (self@, Ok::<ConsolidationResult, FactError>(result)) == start.integrate_all(views, i as int),
            decreases integrations.len() - i,
        {
            let fact = integrations[i].duplicate();
            let ghost before = self@;
            assert(before.holds(views[i as int]));
            let outcome = self.integrate_single_fact(fact);
            proof {
                assert(self.facts@.len() == self.facts.len());
                lemma_integrate_step(before, views[i as int]);
            }
            match outcome {
                SingleFactIntegrationResult::Integrated(h) => {
                    if self.facts[h.0].kind().is_contradiction() {
                        proof {
                            assert(self.facts@.len() == self.facts.len());
                            lemma_error_sticks(start, views, i + 1, integrations.len() as int);
                            lemma_integrate_all(start, views, integrations.len() as int);
                            if start.well_founded() && start.cites_all(views) {
                                lemma_integrate_all_keeps_order(start, views, integrations.len() as int);
                            }
                        }
                        return Err(FactError::Contradiction(h));
                    }
                    result = ConsolidationResult::Changes;
                },
                SingleFactIntegrationResult::Unchanged(_) => {},
            }
            i += 1;
        }
        proof {
            assert(self.facts@.len() == self.facts.len());
            lemma_integrate_all(start, views, integrations.len() as int);
            if start.well_founded() && start.cites_all(views) {
                lemma_integrate_all_keeps_order(start, views, integrations.len() as int);
            }
        }
        Ok(result)
    }

    /// Draws what follows from each line along `axis` having exactly one of
    /// its cells required, as the database stands, and writes it in.
    pub fn consolidate_unique_per_view(&mut self, axis: ViewAxis) -> (status: Result<
        ConsolidationResult,
        FactError,
    >)
        requires
            old(self).wf(),
        ensures
            final(self).wf(),
            (final(self)@, status) == old(self)@.integrate_all(
                old(self)@.unique_derivations(axis, old(self)@.lines(axis) as int),
                old(self)@.unique_derivations(axis, old(self)@.lines(axis) as int).len() as int,
            ),
            old(self)@.progress(final(self)@, status),
            old(self)@.well_founded() ==> final(self)@.well_founded(),
    {
        let integrations = self.collect_unique(axis);
        self.integrate_consolidation(integrations)
    }

    /// The requirements of the database, row by row and, in a row, activation
    /// by activation, each with the number of its fact.
    pub fn givens(&self) -> (found: Vec<((RunePosition, Activation), FactHandle)>)
        requires
            self.wf(),
        ensures
            given_cells(found@) == self@.givens(self@.rows as int),
            forall|i: int|
                0 <= i < found.len() ==> {
                    &&& (#[trigger] found[i]).0.0@ < self@.rows
                    &&& found[i].0.1@ < self@.cols
                    &&& self@.cells[found[i].0.0@ as int][found[i].0.1@ as int] == Some(found[i].1.0)
                    &&& self@.kind_at(found[i].0.0@ as int, found[i].0.1@ as int) == Some(
                        FactKind::ActivationMustBeOn,
                    )
                },
    {
        let ghost db = self@;
        let rows = grid_rows(&self.fact_lookup);
        let cols = grid_cols(&self.fact_lookup);
        let mut found: Vec<((RunePosition, Activation), FactHandle)> = Vec::new();
        let mut row: usize = 0;
        assert(given_cells(found@) =~= db.givens(0));
        while row < rows
            invariant
                self.wf(),
                db == self@,
                rows == db.rows,
                cols == db.cols,
                row <= rows,
                given_cells(found@) == db.givens(row as int),
                forall|i: int|
                    0 <= i < found.len() ==> {
                        &&& (#[trigger] found[i]).0.0@ < db.rows
                        &&& found[i].0.1@ < db.cols
                        &&& db.cells[found[i].0.0@ as int][found[i].0.1@ as int] == Some(found[i].1.0)
                        &&& db.kind_at(found[i].0.0@ as int, found[i].0.1@ as int) == Some(
                            FactKind::ActivationMustBeOn,
                        )
                    },
            decreases rows - row,
        {
            let lane = grid_row(&self.fact_lookup, row);
            let mut col: usize = 0;
            assert(given_cells(found@) =~= db.givens(row as int) + db.row_givens(row as int, 0));
            while col < cols
                invariant
                    self.wf(),
                    db == self@,
                    rows == db.rows,
                    cols == db.cols,
                    row < rows,
                    col <= cols,
                    lane@ == db.cells[row as int],
                    given_cells(found@) == db.givens(row as int) + db.row_givens(row as int, col as int),
                    forall|i: int|
                        0 <= i < found.len() ==> {
                            &&& (#[trigger] found[i]).0.0@ < db.rows
                            &&& found[i].0.1@ < db.cols
                            &&& db.cells[found[i].0.0@ as int][found[i].0.1@ as int] == Some(found[i].1.0)
                            &&& db.kind_at(found[i].0.0@ as int, found[i].0.1@ as int) == Some(
                                FactKind::ActivationMustBeOn,
                            )
                        },
                decreases cols - col,
            {
                if let Some(h) = lane[col] {
                    if self.facts[h].kind().is_must_be() {
                        let ghost before = found@;
                        let position = RunePosition::new(row);
                        let activation = Activation::new(col as u8).unwrap();
                        found.push(((position, activation), FactHandle(h)));
                        assert(given_cells(found@) =~= given_cells(before).push((row as int, col as int)));
                    }
                }
                col += 1;
            }
            row += 1;
        }
        found
    }

    /// Adds to `out` what one rule says, given a requirement, about where
    /// the activation `other` may stand.
    fn derive_candidates(
        &self,
        lock: &RuneLock,
        rule: RuleKind,
        rule_index: usize,
        given: ((RunePosition, Activation), FactHandle),
        other: usize,
        origin: &'static str,
        out: &mut Vec<Fact>,
    )
        requires
            self.wf(),
            given.0.0@ < self@.rows,
            given.0.1@ < self@.cols,
            self@.cells[given.0.0@ as int][given.0.1@ as int] == Some(given.1.0),
            other < 12,
            self@.holds_all(fact_views(old(out)@)),
            self@.cites_all(fact_views(old(out)@)),
        ensures
            fact_views(final(out)@) == fact_views(old(out)@) + self@.candidate_exclusions(
                lock.runes(),
                rule,
                rule_index as int,
                (given.0.0@ as int, given.0.1@ as int),
                other as int,
                origin,
                self@.rows as int,
            ),
            self@.holds_all(fact_views(final(out)@)),
            self@.cites_all(fact_views(final(out)@)),
    {
        let ghost db = self@;
        let ghost base = fact_views(out@);
        let ghost cell = (given.0.0@ as int, given.0.1@ as int);
        let rows = grid_rows(&self.fact_lookup);
        let cols = grid_cols(&self.fact_lookup);
        if other >= cols {
            assert(fact_views(out@) =~= base + Seq::<FactView>::empty());
            return ;
        }
        let lane = grid_column(&self.fact_lookup, other);
        let activation = Activation::new(other as u8).unwrap();
        let mut p: usize = 0;
        assert(fact_views(out@) =~= base + Seq::<FactView>::empty());
        while p < rows
            invariant
                self.wf(),
                db == self@,
                rows == db.rows,
                other < db.cols,
                activation@ == other,
                p <= rows,
                cell == (given.0.0@ as int, given.0.1@ as int),
                0 <= cell.0 < db.rows,
                0 <= cell.1 < db.cols,
                db.cells[cell.0][cell.1] == Some(given.1.0),
                given.1.0 < db.facts.len(),
                lane@ == Seq::new(db.rows, |r: int| db.cells[r][other as int]),
                fact_views(out@) == base + db.candidate_exclusions(
                    lock.runes(),
                    rule,
                    rule_index as int,
                    cell,
                    other as int,
                    origin,
                    p as int,
                ),
                db.holds_all(fact_views(out@)),
                db.cites_all(fact_views(out@)),
            decreases rows - p,
        {
            let candidate = match self.kind_in(lane[p]) {
                None => true,
                Some(FactKind::ActivationMustBeOn) => true,
                _ => false,
            };
            if candidate {
                let position = RunePosition::new(p);
                if rule.validate_tuple(lock, given.0, (position, activation)).is_err() {
                    let reasons = vec![
                        FactReason::Fact(given.1, DebugInfo { origin }),
                        FactReason::Rule(rule_index),
                    ];
                    let ghost before = out@;
                    let fact = Fact::new(FactKind::ActivationCannotBeOn, activation, position, reasons);
                    out.push(fact);
                    proof {
                        assert(reasons@ =~= rule_exclusion(
                            given.1.0,
                            rule_index as int,
                            p as int,
                            other as int,
                            origin,
                        ).reasons);
                        assert(fact_views(out@) =~= fact_views(before).push(fact@));
                    }
                }
            }
            p += 1;
        }
    }

    /// Adds to `out` what one rule draws from one requirement.
    fn derive_rule(
        &self,
        lock: &RuneLock,
        rule_index: usize,
        given: ((RunePosition, Activation), FactHandle),
        out: &mut Vec<Fact>,
    )
        requires
            self.wf(),
            rule_index < lock.rules().len(),
            given.0.0@ < self@.rows,
            given.0.1@ < self@.cols,
            self@.cells[given.0.0@ as int][given.0.1@ as int] == Some(given.1.0),
            self@.holds_all(fact_views(old(out)@)),
            self@.cites_all(fact_views(old(out)@)),
        ensures
            fact_views(final(out)@) == fact_views(old(out)@) + self@.rule_given_derivations(
                lock.runes(),
                lock.rules()[rule_index as int],
                rule_index as int,
                (given.0.0@ as int, given.0.1@ as int),
            ),
            self@.holds_all(fact_views(final(out)@)),
            self@.cites_all(fact_views(final(out)@)),
    {
        let ghost base = fact_views(out@);
        let rule = lock.rule(rule_index);
        let given_position = given.0.0;
        let given_activation = given.0.1;
        match rule {
            RuleKind::RuneFollowsImmediately { first, .. } => {
                if lock.rune_at(given_position).0 == first.0 {
                    match given_activation.next() {
                        Ok(affected) => {
                            self.derive_candidates(
                                lock,
                                rule,
                                rule_index,
                                given,
                                affected.index(),
                                "consolidate_rules runes",
                                out,
                            );
                        },
                        Err(_) => {
                            let reasons = vec![
                                FactReason::Fact(given.1, DebugInfo { origin: "consolidate_rules runes" }),
                                FactReason::Rule(rule_index),
                            ];
                            let ghost before = out@;
                            let fact = Fact::new(
                                FactKind::ActivationCannotBeOn,
                                given_activation,
                                given_position,
                                reasons,
                            );
                            out.push(fact);
                            proof {
                                let expected = rule_exclusion(
                                    given.1.0,
                                    rule_index as int,
                                    given_position@ as int,
                                    given_activation@ as int,
                                    "consolidate_rules runes",
                                );
                                assert(reasons@ =~= expected.reasons);
                                assert(fact_views(out@) =~= fact_views(before).push(fact@));
                                assert(fact_views(before).push(fact@) =~= base + seq![expected]);
                            }
                        },
                    }
                } else {
                    assert(fact_views(out@) =~= base + Seq::<FactView>::empty());
                }
            },
            _ => {
                let (first, second) = rule.activations().unwrap();
                let ghost cell = (given.0.0@ as int, given.0.1@ as int);
                let ghost forth = if first@ == given_activation@ {
                    self@.candidate_exclusions(
                        lock.runes(),
                        rule,
                        rule_index as int,
                        cell,
                        second@ as int,
                        "consolidate_rules",
                        self@.rows as int,
                    )
                } else {
                    Seq::empty()
                };
                let ghost back = if second@ == given_activation@ {
                    self@.candidate_exclusions(
                        lock.runes(),
                        rule,
                        rule_index as int,
                        cell,
                        first@ as int,
                        "consolidate_rules",
                        self@.rows as int,
                    )
                } else {
                    Seq::empty()
                };
                if first.index() == given_activation.index() {
                    self.derive_candidates(lock, rule, rule_index, given, second.index(), "consolidate_rules", out);
                } else {
                    assert(fact_views(out@) =~= base + forth);
                }
                if second.index() == given_activation.index() {
                    self.derive_candidates(lock, rule, rule_index, given, first.index(), "consolidate_rules", out);
                }
                assert(fact_views(out@) =~= base + (forth + back));
            },
        }
    }

    /// What the rules draw from the requirements, as the database stands.
    fn collect_rules(&self, lock: &RuneLock) -> (out: Vec<Fact>)
        requires
            self.wf(),
        ensures
            fact_views(out@) == self@.rule_derivations(
                lock.runes(),
                lock.rules(),
                self@.givens(self@.rows as int),
                self@.givens(self@.rows as int).len() as int,
            ),
            self@.holds_all(fact_views(out@)),
            self@.cites_all(fact_views(out@)),
    {
        let ghost db = self@;
        let givens = self.givens();
        let ghost cells = db.givens(db.rows as int);
        let rule_count = lock.rule_count();
        let mut out: Vec<Fact> = Vec::new();
        let mut g: usize = 0;
        assert(fact_views(out@) =~= db.rule_derivations(lock.runes(), lock.rules(), cells, 0));
        while g < givens.len()
            invariant
                self.wf(),
                db == self@,
                g <= givens.len(),
                cells == db.givens(db.rows as int),
                given_cells(givens@) == cells,
                rule_count == lock.rules().len(),
                forall|i: int|
                    0 <= i < givens.len() ==> {
                        &&& (#[trigger] givens[i]).0.0@ < db.rows
                        &&& givens[i].0.1@ < db.cols
                        &&& db.cells[givens[i].0.0@ as int][givens[i].0.1@ as int] == Some(givens[i].1.0)
                    },
                fact_views(out@) == db.rule_derivations(lock.runes(), lock.rules(), cells, g as int),
                db.holds_all(fact_views(out@)),
                db.cites_all(fact_views(out@)),
            decreases givens.len() - g,
        {
            let given = givens[g];
            let ghost cell = (given.0.0@ as int, given.0.1@ as int);
            assert(cell == cells[g as int]) by {
                assert(given_cells(givens@)[g as int] == cell);
            }
            let ghost base = fact_views(out@);
            let mut rule_index: usize = 0;
            assert(fact_views(out@) =~= base + db.given_derivations(lock.runes(), lock.rules(), cell, 0));
            while rule_index < rule_count
                invariant
                    self.wf(),
                    db == self@,
                    rule_index <= rule_count,
                    rule_count == lock.rules().len(),
                    cell == (given.0.0@ as int, given.0.1@ as int),
                    given.0.0@ < db.rows,
                    given.0.1@ < db.cols,
                    db.cells[cell.0][cell.1] == Some(given.1.0),
                    fact_views(out@) == base + db.given_derivations(
                        lock.runes(),
                        lock.rules(),
                        cell,
                        rule_index as int,
                    ),
                    db.holds_all(fact_views(out@)),
                    db.cites_all(fact_views(out@)),
                decreases rule_count - rule_index,
            {
                self.derive_rule(lock, rule_index, given, &mut out);
                assert(fact_views(out@) =~= base + db.given_derivations(
                    lock.runes(),
                    lock.rules(),
                    cell,
                    rule_index + 1,
                ));
                rule_index += 1;
            }
            g += 1;
        }
        out
    }

    /// Draws what the rules of the lock say about the requirements, as the
    /// database stands, and writes it in.
    pub fn consolidate_rules(&mut self, lock: &RuneLock) -> (status: Result<ConsolidationResult, FactError>)
        requires
            old(self).wf(),
        ensures
            final(self).wf(),
            (final(self)@, status) == old(self)@.integrate_all(
                old(self)@.rule_derivations(
                    lock.runes(),
                    lock.rules(),
                    old(self)@.givens(old(self)@.rows as int),
                    old(self)@.givens(old(self)@.rows as int).len() as int,
                ),
                old(self)@.rule_derivations(
                    lock.runes(),
                    lock.rules(),
                    old(self)@.givens(old(self)@.rows as int),
                    old(self)@.givens(old(self)@.rows as int).len() as int,
                ).len() as int,
            ),
            old(self)@.progress(final(self)@, status),
            old(self)@.well_founded() ==> final(self)@.well_founded(),
    {
        let integrations = self.collect_rules(lock);
        self.integrate_consolidation(integrations)
    }

    /// One pass: one requirement per position, one per activation, then the
    /// rules.
    pub fn pass(&mut self, lock: &RuneLock) -> (status: Result<ConsolidationResult, FactError>)
        requires
            old(self).wf(),
        ensures
            final(self).wf(),
            (final(self)@, status) == old(self)@.pass(lock.runes(), lock.rules()),
            old(self)@.progress(final(self)@, status),
            old(self)@.well_founded() ==> final(self)@.well_founded(),
    {
        let ghost start = self@;
        let by_position = match self.consolidate_unique_per_view(ViewAxis::Position) {
            Err(e) => {
                return Err(e);
            },
            Ok(changed) => changed,
        };
        let ghost one = self@;
        let by_activation = match self.consolidate_unique_per_view(ViewAxis::Activation) {
            Err(e) => {
                proof {
                    lemma_progress_chains(start, one, self@, by_position, Err(e));
                }
                return Err(e);
            },
            Ok(changed) => changed,
        };
        let ghost two = self@;
        proof {
            lemma_progress_chains(start, one, two, by_position, Ok(by_activation));
        }
        let ghost so_far = if by_position == ConsolidationResult::Unchanged && by_activation
            == ConsolidationResult::Unchanged {
            ConsolidationResult::Unchanged
        } else {
            ConsolidationResult::Changes
        };
        let by_rule = match self.consolidate_rules(lock) {
            Err(e) => {
                proof {
                    lemma_progress_chains(start, two, self@, so_far, Err(e));
                }
                return Err(e);
            },
            Ok(changed) => changed,
        };
        proof {
            lemma_progress_chains(start, two, self@, so_far, Ok(by_rule));
        }
        let unchanged = match (by_position, by_activation, by_rule) {
            (
                ConsolidationResult::Unchanged,
                ConsolidationResult::Unchanged,
                ConsolidationResult::Unchanged,
            ) => true,
            _ => false,
        };
        if unchanged {
            Ok(ConsolidationResult::Unchanged)
        } else {
            Ok(ConsolidationResult::Changes)
        }
    }

    /// Consolidates the database: pass after pass until one changes nothing.
    /// On success nothing is left to derive: consolidating again would
    /// change nothing, and no activation is required on two positions. A
    /// contradiction that a pass makes current ends the consolidation; the
    /// database keeps what was written in up to there.
    pub fn consolidate(&mut self, lock: &RuneLock) -> (status: Result<(), FactError>)
        requires
            old(self).wf(),
        ensures
            final(self).wf(),
            (final(self)@, status) == old(self)@.consolidated(lock.runes(), lock.rules()),
            old(self)@.extended_by(final(self)@),
            old(self)@.well_founded() ==> final(self)@.well_founded(),
            status is Ok ==> final(self)@.settled(lock.runes(), lock.rules()),
            status is Ok ==> final(self)@.consolidated(lock.runes(), lock.rules()) == (
                final(self)@,
                Ok::<(), FactError>(()),
            ),
            status is Ok ==> injective(final(self)@.fixed_slots()),
            status matches Err(FactError::Contradiction(h)) ==> h.0 < final(self)@.facts.len()
                && final(self)@.facts[h.0 as int].kind is Contradiction,
    {
        let ghost start = self@;
        let ghost mut fuel: nat = start.open_cells().len() + 1;
        loop
            invariant
                self.wf(),
                start.wf(),
                start == old(self)@,
                start.extended_by(self@),
                start.well_founded() ==> self@.well_founded(),
                fuel >= self@.open_cells().len() + 1,
                start.consolidated(lock.runes(), lock.rules()) == self@.passes(lock.runes(), lock.rules(), fuel),
            decreases fuel,
        {
            let ghost before = self@;
            match self.pass(lock) {
                Err(e) => {
                    proof {
                        lemma_extended_by_chains(start, before, self@);
                    }
                    return Err(e);
                },
                Ok(ConsolidationResult::Unchanged) => {
                    proof {
                        lemma_settled_places_no_activation_twice(self@, lock.runes(), lock.rules());
                    }
                    return Ok(());
                },
                Ok(ConsolidationResult::Changes) => {
                    proof {
                        lemma_extended_by_chains(start, before, self@);
                        fuel = (fuel - 1) as nat;
                    }
                },
            }
        }
    }

    /// Takes in one fact from outside. The fact is written into its cell; a
    /// new contradiction there is the error. Otherwise the database is
    /// consolidated, and success means that nothing is left to derive: in
    /// particular no activation is required on two positions.
    pub fn integrate_and_consolidate(&mut self, fact: Fact, lock: &RuneLock) -> (status: Result<(), FactError>)
        requires
            old(self).wf(),
            old(self)@.holds(fact@),
        ensures
            final(self).wf(),
            (final(self)@, status) == old(self)@.integrated(fact@, lock.runes(), lock.rules()),
            old(self)@.extended_by(final(self)@),
            old(self)@.well_founded() && old(self)@.cites_known(fact@) ==> final(self)@.well_founded(),
            status is Ok ==> final(self)@.settled(lock.runes(), lock.rules()),
            status is Ok ==> injective(final(self)@.fixed_slots()),
            status matches Err(FactError::Contradiction(h)) ==> h.0 < final(self)@.facts.len()
                && final(self)@.facts[h.0 as int].kind is Contradiction,
    {
        let ghost start = self@;
        let ghost incoming = fact@;
        let outcome = self.integrate_single_fact(fact);
        let ghost written = self@;
        proof {
            assert(self.facts@.len() == self.facts.len());
            lemma_integrate_step(start, incoming);
        }
        if let SingleFactIntegrationResult::Integrated(h) = outcome {
            if self.facts[h.0].kind().is_contradiction() {
                return Err(FactError::Contradiction(h));
            }
        }
        let status = self.consolidate(lock);
        proof {
            lemma_extended_by_chains(start, written, self@);
        }
        status
    }
}

/// The places on a line that a list of complements stands for.
pub open spec fn complement_places<T: ChooseView>(found: Seq<T::Complement>) -> Seq<int> {
    Seq::new(found.len(), |i: int| T::place(found[i]) as int)
}

/// The cells of a line as handles.
pub open spec fn lane_handles(lane: Seq<Option<usize>>) -> Seq<Option<FactHandle>> {
    Seq::new(
        lane.len(),
        |k: int|
            match lane[k] {
                Some(h) => Some(FactHandle(h)),
                None => None,
            },
    )
}

impl FactDb {
    /// The number of positions of the grid.
    pub fn num_positions(&self) -> (rows: usize)
        ensures
            rows == self@.rows,
    {
        grid_rows(&self.fact_lookup)
    }

    /// The number of activations of the grid.
    pub fn num_activations(&self) -> (cols: usize)
        ensures
            cols == self@.cols,
    {
        grid_cols(&self.fact_lookup)
    }

    /// The number of facts written down so far.
    pub fn num_facts(&self) -> (count: usize)
        ensures
            count == self@.facts.len(),
    {
        self.facts.len()
    }

    /// The fact with the given number, if one has been written down under it.
    pub fn get(&self, fact: FactHandle) -> (found: Option<&Fact>)
        ensures
            match found {
                Some(f) => fact.0 < self@.facts.len() && f@ == self@.facts[fact.0 as int],
                None => fact.0 >= self@.facts.len(),
            },
    {
        if fact.0 < self.facts.len() {
            Some(&self.facts[fact.0])
        } else {
            None
        }
    }

    /// The fact that is current in a cell, if the cell has one.
    pub fn current(&self, position: RunePosition, activation: Activation) -> (handle: Option<FactHandle>)
        requires
            self.wf(),
            position@ < self@.rows,
            activation@ < self@.cols,
        ensures
            match handle {
                Some(h) => self@.cells[position@ as int][activation@ as int] == Some(h.0) && h.0
                    < self@.facts.len(),
                None => self@.cells[position@ as int][activation@ as int] is None,
            },
    {
        match grid_get(&self.fact_lookup, position.index(), activation.index()) {
            Some(h) => Some(FactHandle(h)),
            None => None,
        }
    }

    /// The cells of one line of the grid: the facts that are current for a
    /// position with each activation, or for an activation on each position.
    pub fn lane(&self, axis: ViewAxis, line: usize) -> (lane: Vec<Option<FactHandle>>)
        requires
            self.wf(),
            line < self@.lines(axis),
        ensures
            lane@ == lane_handles(self@.lane(axis, line as int)),
    {
        let raw = self.lane_raw(axis, line);
        let mut lane: Vec<Option<FactHandle>> = Vec::new();
        let mut k: usize = 0;
        while k < raw.len()
            invariant
                k <= raw.len(),
                lane@ == lane_handles(raw@.take(k as int)),
            decreases raw.len() - k,
        {
            let cell = match raw[k] {
                Some(h) => Some(FactHandle(h)),
                None => None,
            };
            lane.push(cell);
            assert(lane@ =~= lane_handles(raw@.take(k + 1)));
            k += 1;
        }
        assert(raw@.take(k as int) =~= raw@);
        lane
    }

    /// Explains a fact: see [`explain_fact_d`].
    pub fn explain(&self, fact_handle: FactHandle, lock: &RuneLock, max_depth: usize) -> (lines: Vec<
        ExplanationLine,
    >)
        requires
            max_depth < usize::MAX,
        ensures
            line_views(lines@) == explanation(self@, lock.rules(), fact_handle.0, max_depth as nat),
    {
        explain_fact_d(fact_handle, self, lock, max_depth)
    }

    /// A second database that holds the same.
    pub fn duplicate(&self) -> (copy: Self)
        ensures
            copy@ == self@,
            self.wf() ==> copy.wf(),
    {
        let mut facts: Vec<Fact> = Vec::new();
        let mut i: usize = 0;
        while i < self.facts.len()
            invariant
                i <= self.facts.len(),
                fact_views(facts@) == fact_views(self.facts@.take(i as int)),
            decreases self.facts.len() - i,
        {
            let ghost before = facts@;
            let fact = self.facts[i].duplicate();
            facts.push(fact);
            assert(fact_views(facts@) =~= fact_views(before).push(fact@));
            assert(fact_views(self.facts@.take(i + 1)) =~= fact_views(self.facts@.take(i as int)).push(
                self.facts@[i as int]@,
            ));
            i += 1;
        }
        assert(self.facts@.take(i as int) =~= self.facts@);
        let copy = Self { facts, fact_lookup: grid_clone(&self.fact_lookup) };
        assert(copy@.facts =~= self@.facts);
        copy
    }

    /// The placement that the requirements of the database make. It is
    /// refused when an activation is required on two positions, which cannot
    /// be after a consolidation that succeeded.
    pub fn fixed_assignment(&self) -> (made: Result<Assignment, AssignmentError>)
        requires
            self.wf(),
        ensures
            made is Ok <==> injective(self@.fixed_slots()),
            made matches Ok(a) ==> a@ == self@.fixed_slots(),
            made matches Err(AssignmentError::ActivationDoubleAssigned { activation, position_a, position_b })
                ==> first_clash(self@.fixed_slots(), activation@, position_a@, position_b@),
    {
        let ghost db = self@;
        let rows = grid_rows(&self.fact_lookup);
        let cols = grid_cols(&self.fact_lookup);
        let mut target: [Option<Activation>; 12] = [None;12];
        let mut row: usize = 0;
        while row < rows
            invariant
                self.wf(),
                db == self@,
                rows == db.rows,
                cols == db.cols,
                row <= rows,
                forall|p: int|
                    0 <= p < 12 ==> option_index(#[trigger] target@[p]) == if p < row {
                        db.last_must_be(p, cols as int)
                    } else {
                        None
                    },
            decreases rows - row,
        {
            let lane = grid_row(&self.fact_lookup, row);
            let mut current: Option<Activation> = None;
            let mut col: usize = 0;
            while col < cols
                invariant
                    self.wf(),
                    db == self@,
                    rows == db.rows,
                    cols == db.cols,
                    row < rows,
                    col <= cols,
                    lane@ == db.cells[row as int],
                    option_index(current) == db.last_must_be(row as int, col as int),
                decreases cols - col,
            {
                if let Some(h) = lane[col] {
                    if self.facts[h].kind().is_must_be() {
                        current = Some(Activation::new(col as u8).unwrap());
                    }
                }
                col += 1;
            }
            target[row] = current;
            row += 1;
        }
        assert(array_slots(target) =~= db.fixed_slots());
        Assignment::new(target)
    }

    /// What is still open on the line that `view` names: the complements
    /// whose cell holds no fact at all, in order. A cell that holds a
    /// requirement is decided, not open.
    pub fn possibilities_for<T: ChooseView>(&self, view: T) -> (found: Vec<T::Complement>)
        requires
            self.wf(),
            view.line() < self@.lines(T::axis_of()),
        ensures
            complement_places::<T>(found@) == self@.open_places(
                T::axis_of(),
                view.line() as int,
                self@.length(T::axis_of()) as int,
            ),
    {
        let ghost db = self@;
        let axis = T::axis();
        let line = view.index();
        let lane = self.lane_raw(axis, line);
        let mut found: Vec<T::Complement> = Vec::new();
        let mut k: usize = 0;
        assert(complement_places::<T>(found@) =~= db.open_places(axis, line as int, 0));
        while k < lane.len()
            invariant
                self.wf(),
                db == self@,
                axis == T::axis_of(),
                line < db.lines(axis),
                lane@ == db.lane(axis, line as int),
                k <= lane.len(),
                complement_places::<T>(found@) == db.open_places(axis, line as int, k as int),
            decreases lane.len() - k,
        {
            if lane[k].is_none() {
                let ghost before = found@;
                let complement = T::complement_from_usize(k);
                found.push(complement);
                assert(complement_places::<T>(found@) =~= complement_places::<T>(before).push(k as int));
            }
            k += 1;
        }
        found
    }
}

} // verus!
