use vstd::prelude::*;
use vstd::string::StringExecFns;
use crate::activation::Activation;
use crate::fact_solver::deduction::cite_below;
use crate::fact_solver::fact_db::{handle_text, FactDb, FactDbView, FactHandle};
use crate::fact_solver::{describe_fact, fact_text, Fact, FactKind, FactReason, FactView};
use crate::index::RunePosition;
use crate::lock::RuneLock;
use crate::rule::{rule_text, RuleKind};
use crate::text::{decimal_text, digits_of, join_texts, joined_text, repeat_text, repeated, text_views};

verus! {

/// What one line of an explanation says.
#[derive(Debug)]
pub enum ExplanationEntry {
    /// One fact, or several facts that say the same of different positions
    /// for the same reasons: each with its number and its position.
    Facts { kind: FactKind, activation: Activation, members: Vec<(FactHandle, RunePosition)> },
    /// A rule of the lock, by its place in the list; the rule itself where
    /// the lock has one at that place.
    Rule(usize, Option<RuleKind>),
    /// The word of whoever assumed the fact.
    Assumption,
    /// A number under which no fact is written down.
    Unknown(FactHandle),
    /// A fact whose reasons are not shown, because the explanation may not
    /// go deeper.
    Truncated(FactHandle),
}

/// A line of an explanation: what it says, and how deep it stands below the
/// fact that is explained.
#[derive(Debug)]
pub struct ExplanationLine {
    pub depth: usize,
    pub entry: ExplanationEntry,
}

/// An entry as the contracts see it.
pub enum EntryView {
    Facts { kind: FactKind, activation: nat, members: Seq<(usize, nat)> },
    Rule(usize, Option<RuleKind>),
    Assumption,
    Unknown(usize),
    Truncated(usize),
}

/// A line as the contracts see it.
pub struct LineView {
    pub depth: nat,
    pub entry: EntryView,
}

/// The facts of a line by the numbers of their handles and positions.
pub open spec fn member_views(members: Seq<(FactHandle, RunePosition)>) -> Seq<(usize, nat)> {
    Seq::new(members.len(), |i: int| (members[i].0.0, members[i].1@))
}

impl View for ExplanationLine {
    type V = LineView;

    open spec fn view(&self) -> LineView {
        LineView {
            depth: self.depth as nat,
            entry: match self.entry {
                ExplanationEntry::Facts { kind, activation, members } => EntryView::Facts {
                    kind,
                    activation: activation@,
                    members: member_views(members@),
                },
                ExplanationEntry::Rule(index, rule) => EntryView::Rule(index, rule),
                ExplanationEntry::Assumption => EntryView::Assumption,
                ExplanationEntry::Unknown(h) => EntryView::Unknown(h.0),
                ExplanationEntry::Truncated(h) => EntryView::Truncated(h.0),
            },
        }
    }
}

/// The lines of a list as the contracts see them.
pub open spec fn line_views(lines: Seq<ExplanationLine>) -> Seq<LineView> {
    Seq::new(lines.len(), |i: int| lines[i]@)
}

/// What stands before the entry of a line: nothing at depth zero, and below
/// it an arrow, set in by four spaces for each further step of depth.
pub open spec fn prefix_text(depth: nat) -> Seq<char> {
    if depth == 0 {
        Seq::empty()
    } else {
        repeated("    "@, (depth - 1) as nat) + " -> "@
    }
}

/// The positions of the facts of a line, each as people read it.
pub open spec fn position_texts(members: Seq<(usize, nat)>) -> Seq<Seq<char>> {
    Seq::new(members.len(), |i: int| digits_of(members[i].1))
}

/// The handles of the facts of a line, each as people read it.
pub open spec fn handle_texts(members: Seq<(usize, nat)>) -> Seq<Seq<char>> {
    Seq::new(members.len(), |i: int| handle_text(members[i].0))
}

/// An entry as people read it. Facts are named by their handles and then
/// said once, of all their positions.
pub open spec fn entry_text(entry: EntryView) -> Seq<char> {
    match entry {
        EntryView::Facts { kind, activation, members } => joined_text(handle_texts(members), ", "@) + ": "@
            + fact_text(kind, activation, joined_text(position_texts(members), ", "@)),
        EntryView::Rule(index, Some(rule)) => "Rule "@ + digits_of(index as nat) + ": '"@ + rule_text(rule) + "'"@,
        EntryView::Rule(index, None) => "Rule "@ + digits_of(index as nat),
        EntryView::Assumption => "Fact Assumed."@,
        EntryView::Unknown(handle) => "Unknown Fact: "@ + handle_text(handle),
        EntryView::Truncated(handle) => handle_text(handle) + " ..."@,
    }
}

/// A line as people read it.
pub open spec fn line_text(line: LineView) -> Seq<char> {
    prefix_text(line.depth) + entry_text(line.entry)
}

impl ExplanationLine {
    /// The line as people read it.
    pub fn to_text(&self) -> (text: String)
        ensures
            text@ == line_text(self@),
    {
        let prefix = if self.depth == 0 {
            proof {
                reveal_strlit("");
            }
            String::from_str("")
        } else {
            repeat_text("    ", self.depth - 1).concat(" -> ")
        };
        assert(prefix@ =~= prefix_text(self.depth as nat));
        let entry = match &self.entry {
            ExplanationEntry::Facts { kind, activation, members } => {
                let mut handles: Vec<String> = Vec::new();
                let mut positions: Vec<String> = Vec::new();
                let mut i: usize = 0;
                while i < members.len()
                    invariant
                        i <= members.len(),
                        text_views(handles@) == handle_texts(member_views(members@)).take(i as int),
                        text_views(positions@) == position_texts(member_views(members@)).take(i as int),
                    decreases members.len() - i,
                {
                    let handle = members[i].0.to_text();
                    let position = members[i].1.to_text();
                    let ghost named = handles@;
                    let ghost placed = positions@;
                    handles.push(handle);
                    positions.push(position);
                    proof {
                        let all = member_views(members@);
                        assert(all[i as int] == (members@[i as int].0.0, members@[i as int].1@));
                        assert(text_views(handles@) =~= text_views(named).push(handle@));
                        assert(text_views(positions@) =~= text_views(placed).push(position@));
                        assert(handle_texts(all).take(i + 1) =~= handle_texts(all).take(i as int).push(
                            handle_texts(all)[i as int],
                        ));
                        assert(position_texts(all).take(i + 1) =~= position_texts(all).take(i as int).push(
                            position_texts(all)[i as int],
                        ));
                    }
                    i += 1;
                }
                assert(text_views(handles@) =~= handle_texts(member_views(members@)));
                assert(text_views(positions@) =~= position_texts(member_views(members@)));
                proof {
                    reveal_strlit(", ");
                }
                let who = join_texts(&handles, ", ");
                let places = join_texts(&positions, ", ");
                let said = describe_fact(*kind, *activation, places.as_str());
                who.concat(": ").concat(said.as_str())
            },
            ExplanationEntry::Rule(index, Some(rule)) => {
                let number = decimal_text(*index);
                let rule = rule.to_text();
                String::from_str("Rule ").concat(number.as_str()).concat(": '").concat(rule.as_str()).concat("'")
            },
            ExplanationEntry::Rule(index, None) => {
                let number = decimal_text(*index);
                String::from_str("Rule ").concat(number.as_str())
            },
            ExplanationEntry::Assumption => String::from_str("Fact Assumed."),
            ExplanationEntry::Unknown(handle) => {
                let handle = handle.to_text();
                String::from_str("Unknown Fact: ").concat(handle.as_str())
            },
            ExplanationEntry::Truncated(handle) => {
                let handle = handle.to_text();
                handle.concat(" ...")
            },
        };
        prefix.concat(entry.as_str())
    }
}

/// What a fact says apart from its position: facts that agree in this are
/// explained together.
#[derive(Debug)]
pub struct FactExceptPosition {
    kind: FactKind,
    activation: Activation,
    reasons: Vec<FactReason>,
}

/// Facts that say the same of different positions for the same reasons.
pub struct GroupView {
    pub kind: FactKind,
    pub activation: nat,
    pub reasons: Seq<FactReason>,
    pub members: Seq<(usize, nat)>,
}

struct Group {
    key: FactExceptPosition,
    members: Vec<(FactHandle, RunePosition)>,
}

impl Group {
    spec fn view(&self) -> GroupView {
        GroupView {
            kind: self.key.kind,
            activation: self.key.activation@,
            reasons: self.key.reasons@,
            members: member_views(self.members@),
        }
    }
}

spec fn group_views(groups: Seq<Group>) -> Seq<GroupView> {
    Seq::new(groups.len(), |i: int| groups[i].view())
}

/// Two justifications cite the same: the same fact, the same rule, or both
/// an assumption. Where in the engine they were written down does not count.
pub open spec fn same_source(a: FactReason, b: FactReason) -> bool {
    match (a, b) {
        (FactReason::Fact(g, _), FactReason::Fact(h, _)) => g == h,
        (FactReason::Rule(i), FactReason::Rule(j)) => i == j,
        (FactReason::Assumption, FactReason::Assumption) => true,
        _ => false,
    }
}

/// Two lists of justifications cite the same, one by one.
pub open spec fn same_reasons(a: Seq<FactReason>, b: Seq<FactReason>) -> bool {
    a.len() == b.len() && forall|i: int| 0 <= i < a.len() ==> same_source(#[trigger] a[i], b[i])
}

/// The fact says what the group says, for the same reasons.
pub open spec fn belongs(group: GroupView, fact: FactView) -> bool {
    group.kind == fact.kind && group.activation == fact.activation && same_reasons(group.reasons, fact.reasons)
}

/// The first of the first `upto` groups to which the fact belongs.
pub open spec fn find_group(groups: Seq<GroupView>, fact: FactView, upto: int) -> Option<int>
    decreases upto,
{
    if upto <= 0 {
        None
    } else {
        match find_group(groups, fact, upto - 1) {
            Some(i) => Some(i),
            None => if belongs(groups[upto - 1], fact) {
                Some(upto - 1)
            } else {
                None
            },
        }
    }
}

/// The groups after one more fact is sorted in: it joins the first group to
/// which it belongs, or starts a new one at the end.
pub open spec fn sorted_in(groups: Seq<GroupView>, handle: usize, fact: FactView) -> Seq<GroupView> {
    match find_group(groups, fact, groups.len() as int) {
        Some(i) => groups.update(
            i,
            GroupView { members: groups[i].members.push((handle, fact.position)), ..groups[i] },
        ),
        None => groups.push(
            GroupView {
                kind: fact.kind,
                activation: fact.activation,
                reasons: fact.reasons,
                members: seq![(handle, fact.position)],
            },
        ),
    }
}

/// The facts that the first `upto` justifications cite, sorted into groups in
/// the order in which they are cited. A justification that cites no fact, or
/// a number under which no fact is written down, adds nothing.
pub open spec fn grouped(db: FactDbView, reasons: Seq<FactReason>, upto: int) -> Seq<GroupView>
    decreases upto,
{
    if upto <= 0 {
        Seq::empty()
    } else {
        let before = grouped(db, reasons, upto - 1);
        match reasons[upto - 1] {
            FactReason::Fact(h, _) => if h.0 < db.facts.len() {
                sorted_in(before, h.0, db.facts[h.0 as int])
            } else {
                before
            },
            _ => before,
        }
    }
}

/// The rule at a place of the list, if the list has one there.
pub open spec fn rule_at(rules: Seq<RuleKind>, index: usize) -> Option<RuleKind> {
    if index < rules.len() {
        Some(rules[index as int])
    } else {
        None
    }
}

/// The lines that the first `upto` justifications give rise to by themselves,
/// in order: a rule, an assumption, a number under which no fact is written
/// down. A fact that is written down gives a line here only where the
/// explanation is cut: then it is named as truncated.
pub open spec fn direct_lines(
    db: FactDbView,
    rules: Seq<RuleKind>,
    reasons: Seq<FactReason>,
    depth: nat,
    cut: bool,
    upto: int,
) -> Seq<LineView>
    decreases upto,
{
    if upto <= 0 {
        Seq::empty()
    } else {
        let before = direct_lines(db, rules, reasons, depth, cut, upto - 1);
        match reasons[upto - 1] {
            FactReason::Rule(i) => before.push(LineView { depth, entry: EntryView::Rule(i, rule_at(rules, i)) }),
            FactReason::Assumption => before.push(LineView { depth, entry: EntryView::Assumption }),
            FactReason::Fact(h, _) => if h.0 >= db.facts.len() {
                before.push(LineView { depth, entry: EntryView::Unknown(h.0) })
            } else if cut {
                before.push(LineView { depth, entry: EntryView::Truncated(h.0) })
            } else {
                before
            },
        }
    }
}

/// The lines that explain a list of justifications at a depth. Beyond the
/// greatest depth the explanation is cut: the facts cited are named and not
/// explained. Up to it, the lines of the justifications themselves come
/// first, then group after group of the facts cited.
pub open spec fn reason_lines(
    db: FactDbView,
    rules: Seq<RuleKind>,
    reasons: Seq<FactReason>,
    depth: nat,
    max_depth: nat,
) -> Seq<LineView>
    decreases max_depth + 1 - depth, 1nat, 0nat,
{
    if depth > max_depth {
        direct_lines(db, rules, reasons, depth, true, reasons.len() as int)
    } else {
        let groups = grouped(db, reasons, reasons.len() as int);
        direct_lines(db, rules, reasons, depth, false, reasons.len() as int) + group_lines(
            db,
            rules,
            groups,
            depth,
            max_depth,
            groups.len(),
        )
    }
}

/// The lines of the first `upto` groups at a depth: for each group a line
/// that says what its facts say, and then the explanation of the reasons
/// they share, one deeper.
pub open spec fn group_lines(
    db: FactDbView,
    rules: Seq<RuleKind>,
    groups: Seq<GroupView>,
    depth: nat,
    max_depth: nat,
    upto: nat,
) -> Seq<LineView>
    decreases max_depth + 1 - depth, 0nat, upto,
{
    if upto == 0 || depth > max_depth {
        Seq::empty()
    } else {
        let group = groups[upto - 1];
        group_lines(db, rules, groups, depth, max_depth, (upto - 1) as nat) + seq![
            LineView {
                depth,
                entry: EntryView::Facts {
                    kind: group.kind,
                    activation: group.activation,
                    members: group.members,
                },
            },
        ] + reason_lines(db, rules, group.reasons, depth + 1, max_depth)
    }
}

/// The explanation of a fact: the fact itself at depth zero, and below it
/// the explanation of its reasons. A number under which no fact is written
/// down is explained by saying so.
pub open spec fn explanation(db: FactDbView, rules: Seq<RuleKind>, handle: usize, max_depth: nat) -> Seq<LineView> {
    if handle >= db.facts.len() {
        seq![LineView { depth: 0, entry: EntryView::Unknown(handle) }]
    } else {
        let fact = db.facts[handle as int];
        seq![
            LineView {
                depth: 0,
                entry: EntryView::Facts {
                    kind: fact.kind,
                    activation: fact.activation,
                    members: seq![(handle, fact.position)],
                },
            },
        ] + reason_lines(db, rules, fact.reasons, 1, max_depth)
    }
}

/// Whether two justifications cite the same.
fn cites_the_same(a: &FactReason, b: &FactReason) -> (same: bool)
    ensures
        same == same_source(*a, *b),
{
    match (a, b) {
        (FactReason::Fact(g, _), FactReason::Fact(h, _)) => g.0 == h.0,
        (FactReason::Rule(i), FactReason::Rule(j)) => *i == *j,
        (FactReason::Assumption, FactReason::Assumption) => true,
        _ => false,
    }
}

impl FactExceptPosition {
    pub closed spec fn view(&self) -> GroupView {
        GroupView {
            kind: self.kind,
            activation: self.activation@,
            reasons: self.reasons@,
            members: Seq::empty(),
        }
    }

    /// What the fact says apart from its position.
    pub fn from(value: &Fact) -> (key: Self)
        ensures
            key.view() == (GroupView {
                kind: value@.kind,
                activation: value@.activation,
                reasons: value@.reasons,
                members: Seq::empty(),
            }),
    {
        let mut reasons: Vec<FactReason> = Vec::new();
        let source = value.reasons();
        let mut i: usize = 0;
        while i < source.len()
            invariant
                i <= source.len(),
                reasons@ == source@.take(i as int),
            decreases source.len() - i,
        {
            reasons.push(source[i]);
            assert(source@.take(i + 1) =~= source@.take(i as int).push(source@[i as int]));
            i += 1;
        }
        assert(source@.take(i as int) =~= source@);
        Self { kind: value.kind(), activation: value.activation(), reasons }
    }

    /// Whether a fact says the same, apart from its position.
    pub fn describes(&self, fact: &Fact) -> (yes: bool)
        ensures
            yes == belongs(self.view(), fact@),
    {
        if self.kind != fact.kind() || self.activation.index() != fact.activation().index() {
            return false;
        }
        let theirs = fact.reasons();
        if self.reasons.len() != theirs.len() {
            return false;
        }
        let mut i: usize = 0;
        while i < theirs.len()
            invariant
                i <= theirs.len(),
                theirs.len() == self.reasons.len(),
                theirs@ == fact@.reasons,
                forall|k: int| 0 <= k < i ==> same_source(#[trigger] self.reasons@[k], theirs@[k]),
            decreases theirs.len() - i,
        {
            if !cites_the_same(&self.reasons[i], &theirs[i]) {
                assert(!same_source(self.reasons@[i as int], theirs@[i as int]));
                return false;
            }
            i += 1;
        }
        true
    }
}

/// Sorts the facts that a list of justifications cites into groups.
fn group_reasons(db: &FactDb, reasons: &Vec<FactReason>) -> (groups: Vec<Group>)
    ensures
        group_views(groups@) == grouped(db@, reasons@, reasons@.len() as int),
{
    let mut groups: Vec<Group> = Vec::new();
    let mut i: usize = 0;
    assert(group_views(groups@) =~= grouped(db@, reasons@, 0));
    while i < reasons.len()
        invariant
            i <= reasons.len(),
            group_views(groups@) == grouped(db@, reasons@, i as int),
        decreases reasons.len() - i,
    {
        if let FactReason::Fact(handle, _) = reasons[i] {
            if let Some(fact) = db.get(handle) {
                let ghost before = group_views(groups@);
                let mut found: Option<usize> = None;
                let mut g: usize = 0;
                while g < groups.len()
                    invariant
                        g <= groups.len(),
                        before == group_views(groups@),
                        match found {
                            Some(at) => find_group(before, fact@, g as int) == Some(at as int) && at < g,
                            None => find_group(before, fact@, g as int) is None,
                        },
                    decreases groups.len() - g,
                {
                    if found.is_none() {
                        assert(groups@[g as int].key.view() == (GroupView {
                            members: Seq::empty(),
                            ..before[g as int]
                        }));
                        if groups[g].key.describes(fact) {
                            found = Some(g);
                        }
                    }
                    g += 1;
                }
                match found {
                    Some(at) => {
                        groups[at].members.push((handle, fact.position()));
                        proof {
                            let after = sorted_in(before, handle.0, fact@);
                            assert forall|k: int| 0 <= k < groups.len() implies group_views(groups@)[k]
                                == after[k] by {
                                if k == at {
                                    assert(group_views(groups@)[k].members =~= after[k].members);
                                }
                            }
                            assert(group_views(groups@) =~= after);
                        }
                    },
                    None => {
                        let key = FactExceptPosition::from(fact);
                        let members = vec![(handle, fact.position())];
                        groups.push(Group { key, members });
                        proof {
                            let after = sorted_in(before, handle.0, fact@);
                            let last = groups.len() - 1;
                            assert(group_views(groups@)[last].members =~= after[last].members);
                            assert(group_views(groups@) =~= after);
                        }
                    },
                }
            }
        }
        i += 1;
    }
    groups
}

/// Adds to `out` the lines that the justifications give rise to by
/// themselves.
fn add_direct_lines(
    db: &FactDb,
    lock: &RuneLock,
    reasons: &Vec<FactReason>,
    depth: usize,
    cut: bool,
    out: &mut Vec<ExplanationLine>,
)
    ensures
        line_views(final(out)@) == line_views(old(out)@) + direct_lines(
            db@,
            lock.rules(),
            reasons@,
            depth as nat,
            cut,
            reasons@.len() as int,
        ),
{
    let ghost base = line_views(out@);
    let mut i: usize = 0;
    assert(line_views(out@) =~= base + direct_lines(db@, lock.rules(), reasons@, depth as nat, cut, 0));
    while i < reasons.len()
        invariant
            i <= reasons.len(),
            line_views(out@) == base + direct_lines(db@, lock.rules(), reasons@, depth as nat, cut, i as int),
        decreases reasons.len() - i,
    {
        let ghost before = out@;
        let entry = match reasons[i] {
            FactReason::Rule(index) => {
                let rule = if index < lock.rule_count() {
                    Some(lock.rule(index))
                } else {
                    None
                };
                Some(ExplanationEntry::Rule(index, rule))
            },
            FactReason::Assumption => Some(ExplanationEntry::Assumption),
            FactReason::Fact(handle, _) => {
                if handle.0 >= db.num_facts() {
                    Some(ExplanationEntry::Unknown(handle))
                } else if cut {
                    Some(ExplanationEntry::Truncated(handle))
                } else {
                    None
                }
            },
        };
        match entry {
            Some(entry) => {
                let line = ExplanationLine { depth, entry };
                out.push(line);
                assert(line_views(out@) =~= line_views(before).push(line@));
            },
            None => {},
        }
        i += 1;
    }
}

/// Adds to `out` the lines that explain a list of justifications at a depth.
fn add_reason_lines(
    db: &FactDb,
    lock: &RuneLock,
    reasons: &Vec<FactReason>,
    depth: usize,
    max_depth: usize,
    out: &mut Vec<ExplanationLine>,
)
    requires
        max_depth < usize::MAX,
        depth <= max_depth + 1,
    ensures
        line_views(final(out)@) == line_views(old(out)@) + reason_lines(
            db@,
            lock.rules(),
            reasons@,
            depth as nat,
            max_depth as nat,
        ),
    decreases max_depth + 1 - depth,
{
    let ghost base = line_views(out@);
    if depth > max_depth {
        add_direct_lines(db, lock, reasons, depth, true, out);
        return ;
    }
    add_direct_lines(db, lock, reasons, depth, false, out);
    let groups = group_reasons(db, reasons);
    let ghost direct = direct_lines(db@, lock.rules(), reasons@, depth as nat, false, reasons@.len() as int);
    let ghost views = group_views(groups@);
    let mut g: usize = 0;
    assert(line_views(out@) =~= base + direct + group_lines(
        db@,
        lock.rules(),
        views,
        depth as nat,
        max_depth as nat,
        0,
    ));
    while g < groups.len()
        invariant
            g <= groups.len(),
            max_depth < usize::MAX,
            depth <= max_depth,
            views == group_views(groups@),
            line_views(out@) == base + direct + group_lines(
                db@,
                lock.rules(),
                views,
                depth as nat,
                max_depth as nat,
                g as nat,
            ),
        decreases groups.len() - g,
    {
        let ghost before = out@;
        let group = &groups[g];
        let mut members: Vec<(FactHandle, RunePosition)> = Vec::new();
        let mut m: usize = 0;
        while m < group.members.len()
            invariant
                m <= group.members.len(),
                members@ == group.members@.take(m as int),
            decreases group.members.len() - m,
        {
            members.push(group.members[m]);
            assert(group.members@.take(m + 1) =~= group.members@.take(m as int).push(group.members@[m as int]));
            m += 1;
        }
        assert(group.members@.take(m as int) =~= group.members@);
        let line = ExplanationLine {
            depth,
            entry: ExplanationEntry::Facts { kind: group.key.kind, activation: group.key.activation, members },
        };
        out.push(line);
        let ghost headed = line_views(out@);
        assert(headed =~= line_views(before).push(line@));
        add_reason_lines(db, lock, &group.key.reasons, depth + 1, max_depth, out);
        proof {
            let so_far = group_lines(db@, lock.rules(), views, depth as nat, max_depth as nat, g as nat);
            let deeper = reason_lines(db@, lock.rules(), views[g as int].reasons, (depth + 1) as nat, max_depth as nat);
            assert(views[g as int] == group.view());
            assert(line_views(out@) =~= base + direct + (so_far + seq![line@] + deeper));
        }
        g += 1;
    }
}

/// Explains a fact down to the greatest depth there is room for.
pub fn explain_fact(fact_handle: FactHandle, facts: &FactDb, lock: &RuneLock) -> (lines: Vec<ExplanationLine>)
    ensures
        line_views(lines@) == explanation(facts@, lock.rules(), fact_handle.0, (usize::MAX - 1) as nat),
{
    explain_fact_d(fact_handle, facts, lock, usize::MAX - 1)
}

/// Explains a fact: the fact itself, then what justifies it, then what
/// justifies that, down to `max_depth` steps below the fact. Facts that say
/// the same of different positions for the same reasons are explained once,
/// together. Where the explanation stops at the greatest depth, the facts
/// that are left unexplained are named as truncated.
pub fn explain_fact_d(fact_handle: FactHandle, facts: &FactDb, lock: &RuneLock, max_depth: usize) -> (lines: Vec<
    ExplanationLine,
>)
    requires
        max_depth < usize::MAX,
    ensures
        line_views(lines@) == explanation(facts@, lock.rules(), fact_handle.0, max_depth as nat),
{
    let mut lines: Vec<ExplanationLine> = Vec::new();
    match facts.get(fact_handle) {
        None => {
            let line = ExplanationLine { depth: 0, entry: ExplanationEntry::Unknown(fact_handle) };
            lines.push(line);
            assert(line_views(lines@) =~= seq![line@]);
        },
        Some(fact) => {
            let members = vec![(fact_handle, fact.position())];
            let line = ExplanationLine {
                depth: 0,
                entry: ExplanationEntry::Facts { kind: fact.kind(), activation: fact.activation(), members },
            };
            lines.push(line);
            assert(member_views(members@) =~= seq![(fact_handle.0, fact@.position)]);
            assert(line_views(lines@) =~= seq![line@]);
            add_reason_lines(facts, lock, fact.reasons(), 1, max_depth, &mut lines);
        },
    }
    lines
}

/// No line stands shallower than `from` or deeper than one below the
/// greatest depth; lines that say what facts say stand no deeper than the
/// greatest depth; and a line names a fact as truncated only where the
/// explanation is cut, one below the greatest depth.
pub open spec fn bounded(lines: Seq<LineView>, from: nat, max_depth: nat) -> bool {
    forall|i: int|
        0 <= i < lines.len() ==> {
            &&& from <= (#[trigger] lines[i]).depth <= max_depth + 1
            &&& lines[i].entry is Facts ==> lines[i].depth <= max_depth
            &&& lines[i].entry is Truncated ==> lines[i].depth == max_depth + 1
        }
}

proof fn lemma_direct_lines_bounded(
    db: FactDbView,
    rules: Seq<RuleKind>,
    reasons: Seq<FactReason>,
    depth: nat,
    max_depth: nat,
    upto: int,
)
    requires
        depth <= max_depth + 1,
    ensures
        bounded(direct_lines(db, rules, reasons, depth, depth > max_depth, upto), depth, max_depth),
    decreases upto,
{
    if upto > 0 {
        lemma_direct_lines_bounded(db, rules, reasons, depth, max_depth, upto - 1);
    }
}

proof fn lemma_reason_lines_bounded(
    db: FactDbView,
    rules: Seq<RuleKind>,
    reasons: Seq<FactReason>,
    depth: nat,
    max_depth: nat,
)
    requires
        depth <= max_depth + 1,
    ensures
        bounded(reason_lines(db, rules, reasons, depth, max_depth), depth, max_depth),
    decreases max_depth + 1 - depth, 1nat, 0nat,
{
    lemma_direct_lines_bounded(db, rules, reasons, depth, max_depth, reasons.len() as int);
    if depth <= max_depth {
        let groups = grouped(db, reasons, reasons.len() as int);
        lemma_group_lines_bounded(db, rules, groups, depth, max_depth, groups.len());
    }
}

proof fn lemma_group_lines_bounded(
    db: FactDbView,
    rules: Seq<RuleKind>,
    groups: Seq<GroupView>,
    depth: nat,
    max_depth: nat,
    upto: nat,
)
    requires
        depth <= max_depth,
    ensures
        bounded(group_lines(db, rules, groups, depth, max_depth, upto), depth, max_depth),
    decreases max_depth + 1 - depth, 0nat, upto,
{
    if upto > 0 {
        lemma_group_lines_bounded(db, rules, groups, depth, max_depth, (upto - 1) as nat);
        lemma_reason_lines_bounded(db, rules, groups[upto - 1].reasons, depth + 1, max_depth);
    }
}

/// An explanation keeps within its depth: every line that says what facts
/// say stands at most `max_depth` below the fact explained, and what lies
/// one step deeper is a rule, an assumption, a number that names no fact, or
/// a fact that is expressly named as truncated.
pub proof fn lemma_explanation_is_bounded(db: FactDbView, rules: Seq<RuleKind>, handle: usize, max_depth: nat)
    ensures
        bounded(explanation(db, rules, handle, max_depth), 0, max_depth),
{
    if handle < db.facts.len() {
        lemma_reason_lines_bounded(db, rules, db.facts[handle as int].reasons, 1, max_depth);
    }
}

/// No line names a fact as truncated, and none names a number under which
/// no fact is written down.
pub open spec fn complete(lines: Seq<LineView>) -> bool {
    forall|i: int| 0 <= i < lines.len() ==> !((#[trigger] lines[i]).entry is Truncated) && !(lines[i].entry is Unknown)
}

proof fn lemma_complete_joins(a: Seq<LineView>, b: Seq<LineView>)
    requires
        complete(a),
        complete(b),
    ensures
        complete(a + b),
{
    assert forall|i: int| 0 <= i < (a + b).len() implies !((#[trigger] (a + b)[i]).entry is Truncated) && !((a
        + b)[i].entry is Unknown) by {
        if i < a.len() {
            assert((a + b)[i] == a[i]);
        } else {
            assert((a + b)[i] == b[i - a.len()]);
        }
    }
}

proof fn lemma_direct_lines_complete(
    db: FactDbView,
    rules: Seq<RuleKind>,
    reasons: Seq<FactReason>,
    depth: nat,
    cut: bool,
    upto: int,
    bound: nat,
)
    requires
        0 <= upto <= reasons.len(),
        cite_below(reasons, bound),
        bound <= db.facts.len(),
        cut ==> bound == 0,
    ensures
        complete(direct_lines(db, rules, reasons, depth, cut, upto)),
    decreases upto,
{
    if upto > 0 {
        lemma_direct_lines_complete(db, rules, reasons, depth, cut, upto - 1, bound);
        let r = reasons[upto - 1];
    }
}

proof fn lemma_find_group_in_range(groups: Seq<GroupView>, fact: FactView, upto: int)
    requires
        0 <= upto <= groups.len(),
    ensures
        find_group(groups, fact, upto) matches Some(i) ==> 0 <= i < upto,
    decreases upto,
{
    if upto > 0 {
        lemma_find_group_in_range(groups, fact, upto - 1);
    }
}

proof fn lemma_groups_cite_earlier(db: FactDbView, reasons: Seq<FactReason>, upto: int, bound: nat)
    requires
        db.well_founded(),
        0 <= upto <= reasons.len(),
        cite_below(reasons, bound),
        bound <= db.facts.len(),
    ensures
        bound == 0 ==> grouped(db, reasons, upto).len() == 0,
        forall|g: int|
            0 <= g < grouped(db, reasons, upto).len() ==> cite_below(
                (#[trigger] grouped(db, reasons, upto)[g]).reasons,
                (bound - 1) as nat,
            ),
    decreases upto,
{
    if upto > 0 {
        lemma_groups_cite_earlier(db, reasons, upto - 1, bound);
        let before = grouped(db, reasons, upto - 1);
        match reasons[upto - 1] {
            FactReason::Fact(h, _) => {
                if h.0 < db.facts.len() {
                    let fact = db.facts[h.0 as int];
                    lemma_find_group_in_range(before, fact, before.len() as int);
                    assert(cite_below(fact.reasons, h.0 as nat));
                    let after = sorted_in(before, h.0, fact);
                    assert forall|g: int| 0 <= g < after.len() implies cite_below(
                        (#[trigger] after[g]).reasons,
                        (bound - 1) as nat,
                    ) by {
                        if g < before.len() {
                            assert(after[g].reasons == before[g].reasons);
                        }
                    }
                }
            },
            _ => {},
        }
    }
}

proof fn lemma_reason_lines_complete(
    db: FactDbView,
    rules: Seq<RuleKind>,
    reasons: Seq<FactReason>,
    depth: nat,
    max_depth: nat,
    bound: nat,
)
    requires
        db.well_founded(),
        cite_below(reasons, bound),
        bound <= db.facts.len(),
        depth + bound <= max_depth + 1,
    ensures
        complete(reason_lines(db, rules, reasons, depth, max_depth)),
    decreases max_depth + 1 - depth, 1nat, 0nat,
{
    lemma_direct_lines_complete(db, rules, reasons, depth, depth > max_depth, reasons.len() as int, bound);
    if depth <= max_depth {
        let groups = grouped(db, reasons, reasons.len() as int);
        lemma_groups_cite_earlier(db, reasons, reasons.len() as int, bound);
        if bound > 0 {
            lemma_group_lines_complete(db, rules, groups, depth, max_depth, groups.len(), (bound - 1) as nat);
        } else {
            assert(group_lines(db, rules, groups, depth, max_depth, groups.len()) =~= Seq::<LineView>::empty());
        }
        lemma_complete_joins(
            direct_lines(db, rules, reasons, depth, false, reasons.len() as int),
            group_lines(db, rules, groups, depth, max_depth, groups.len()),
        );
    }
}

proof fn lemma_group_lines_complete(
    db: FactDbView,
    rules: Seq<RuleKind>,
    groups: Seq<GroupView>,
    depth: nat,
    max_depth: nat,
    upto: nat,
    bound: nat,
)
    requires
        db.well_founded(),
        upto <= groups.len(),
        forall|g: int| 0 <= g < groups.len() ==> cite_below((#[trigger] groups[g]).reasons, bound),
        bound <= db.facts.len(),
        depth + 1 + bound <= max_depth + 1,
    ensures
        complete(group_lines(db, rules, groups, depth, max_depth, upto)),
    decreases max_depth + 1 - depth, 0nat, upto,
{
    if upto > 0 {
        let group = groups[upto - 1];
        lemma_group_lines_complete(db, rules, groups, depth, max_depth, (upto - 1) as nat, bound);
        lemma_reason_lines_complete(db, rules, group.reasons, depth + 1, max_depth, bound);
        let head = seq![
            LineView {
                depth,
                entry: EntryView::Facts {
                    kind: group.kind,
                    activation: group.activation,
                    members: group.members,
                },
            },
        ];
        lemma_complete_joins(group_lines(db, rules, groups, depth, max_depth, (upto - 1) as nat), head);
        lemma_complete_joins(
            group_lines(db, rules, groups, depth, max_depth, (upto - 1) as nat) + head,
            reason_lines(db, rules, group.reasons, depth + 1, max_depth),
        );
    }
}

/// Where every fact cites only facts written down before it, the
/// explanation of a fact comes to an end by itself: given as many steps of
/// depth as the number of the fact, it names no fact as truncated and cites
/// no fact that is not written down. What it ends in are rules, assumptions,
/// and facts that were given no reason.
pub proof fn lemma_explanation_is_complete(db: FactDbView, rules: Seq<RuleKind>, handle: usize, max_depth: nat)
    requires
        db.well_founded(),
        handle < db.facts.len(),
        handle <= max_depth,
    ensures
        complete(explanation(db, rules, handle, max_depth)),
{
    let fact = db.facts[handle as int];
    lemma_reason_lines_complete(db, rules, fact.reasons, 1, max_depth, handle as nat);
    let head = seq![
        LineView {
            depth: 0,
            entry: EntryView::Facts {
                kind: fact.kind,
                activation: fact.activation,
                members: seq![(handle, fact.position)],
            },
        },
    ];
    lemma_complete_joins(head, reason_lines(db, rules, fact.reasons, 1, max_depth));
}

/// Every fact of the database has at least one justification.
pub open spec fn all_justified(db: FactDbView) -> bool {
    forall|h: int| 0 <= h < db.facts.len() ==> (#[trigger] db.facts[h]).reasons.len() > 0
}

/// Every line that says what facts say is followed by a line one step
/// deeper: no such line is where the explanation ends.
pub open spec fn branching(lines: Seq<LineView>) -> bool {
    forall|i: int|
        0 <= i < lines.len() && (#[trigger] lines[i]).entry is Facts ==> i + 1 < lines.len() && lines[i + 1].depth
            == lines[i].depth + 1
}

proof fn lemma_branching_joins(a: Seq<LineView>, b: Seq<LineView>)
    requires
        branching(a),
        branching(b),
    ensures
        branching(a + b),
{
    let both = a + b;
    assert forall|i: int| 0 <= i < both.len() && (#[trigger] both[i]).entry is Facts implies i + 1 < both.len()
        && both[i + 1].depth == both[i].depth + 1 by {
        if i < a.len() {
            assert(both[i] == a[i]);
            assert(both[i + 1] == a[i + 1]);
        } else {
            assert(both[i] == b[i - a.len()]);
            assert(both[i + 1] == b[i + 1 - a.len()]);
        }
    }
}

proof fn lemma_branching_headed(head: LineView, rest: Seq<LineView>)
    requires
        branching(rest),
        rest.len() > 0,
        rest[0].depth == head.depth + 1,
    ensures
        branching(seq![head] + rest),
{
    let both = seq![head] + rest;
    assert forall|i: int| 0 <= i < both.len() && (#[trigger] both[i]).entry is Facts implies i + 1 < both.len()
        && both[i + 1].depth == both[i].depth + 1 by {
        if i > 0 {
            assert(both[i] == rest[i - 1]);
            assert(both[i + 1] == rest[i]);
        } else {
            assert(both[1] == rest[0]);
        }
    }
}

proof fn lemma_direct_lines_are_leaves(
    db: FactDbView,
    rules: Seq<RuleKind>,
    reasons: Seq<FactReason>,
    depth: nat,
    cut: bool,
    upto: int,
)
    requires
        0 <= upto <= reasons.len(),
    ensures
        forall|i: int|
            0 <= i < direct_lines(db, rules, reasons, depth, cut, upto).len() ==> (#[trigger] direct_lines(
                db,
                rules,
                reasons,
                depth,
                cut,
                upto,
            )[i]).depth == depth && !(direct_lines(db, rules, reasons, depth, cut, upto)[i].entry is Facts),
        branching(direct_lines(db, rules, reasons, depth, cut, upto)),
        cut ==> direct_lines(db, rules, reasons, depth, cut, upto).len() == upto,
        upto > 0 ==> direct_lines(db, rules, reasons, depth, cut, upto).len() > 0 || grouped(db, reasons, upto).len()
            > 0,
    decreases upto,
{
    if upto > 0 {
        lemma_direct_lines_are_leaves(db, rules, reasons, depth, cut, upto - 1);
        let before = grouped(db, reasons, upto - 1);
        match reasons[upto - 1] {
            FactReason::Fact(h, _) => {
                if h.0 < db.facts.len() {
                    lemma_find_group_in_range(before, db.facts[h.0 as int], before.len() as int);
                }
            },
            _ => {},
        }
    }
}

proof fn lemma_groups_are_justified(db: FactDbView, reasons: Seq<FactReason>, upto: int)
    requires
        all_justified(db),
        0 <= upto <= reasons.len(),
    ensures
        forall|g: int|
            0 <= g < grouped(db, reasons, upto).len() ==> (#[trigger] grouped(db, reasons, upto)[g]).reasons.len()
                > 0,
    decreases upto,
{
    if upto > 0 {
        lemma_groups_are_justified(db, reasons, upto - 1);
        let before = grouped(db, reasons, upto - 1);
        match reasons[upto - 1] {
            FactReason::Fact(h, _) => {
                if h.0 < db.facts.len() {
                    let fact = db.facts[h.0 as int];
                    lemma_find_group_in_range(before, fact, before.len() as int);
                    let after = sorted_in(before, h.0, fact);
                    assert forall|g: int| 0 <= g < after.len() implies (#[trigger] after[g]).reasons.len() > 0 by {
                        if g < before.len() {
                            assert(after[g].reasons == before[g].reasons);
                        }
                    }
                }
            },
            _ => {},
        }
    }
}

proof fn lemma_reason_lines_branch(
    db: FactDbView,
    rules: Seq<RuleKind>,
    reasons: Seq<FactReason>,
    depth: nat,
    max_depth: nat,
)
    requires
        all_justified(db),
        depth <= max_depth + 1,
    ensures
        branching(reason_lines(db, rules, reasons, depth, max_depth)),
        reasons.len() > 0 ==> reason_lines(db, rules, reasons, depth, max_depth).len() > 0 && reason_lines(
            db,
            rules,
            reasons,
            depth,
            max_depth,
        )[0].depth == depth,
    decreases max_depth + 1 - depth, 1nat, 0nat,
{
    let n = reasons.len() as int;
    lemma_direct_lines_are_leaves(db, rules, reasons, depth, depth > max_depth, n);
    if depth <= max_depth {
        let direct = direct_lines(db, rules, reasons, depth, false, n);
        let groups = grouped(db, reasons, n);
        lemma_groups_are_justified(db, reasons, n);
        lemma_group_lines_branch(db, rules, groups, depth, max_depth, groups.len());
        lemma_branching_joins(direct, group_lines(db, rules, groups, depth, max_depth, groups.len()));
        if direct.len() > 0 {
            assert((direct + group_lines(db, rules, groups, depth, max_depth, groups.len()))[0] == direct[0]);
        }
    }
}

proof fn lemma_group_lines_branch(
    db: FactDbView,
    rules: Seq<RuleKind>,
    groups: Seq<GroupView>,
    depth: nat,
    max_depth: nat,
    upto: nat,
)
    requires
        all_justified(db),
        depth <= max_depth,
        upto <= groups.len(),
        forall|g: int| 0 <= g < groups.len() ==> (#[trigger] groups[g]).reasons.len() > 0,
    ensures
        branching(group_lines(db, rules, groups, depth, max_depth, upto)),
        upto > 0 ==> group_lines(db, rules, groups, depth, max_depth, upto).len() > 0 && group_lines(
            db,
            rules,
            groups,
            depth,
            max_depth,
            upto,
        )[0].depth == depth,
    decreases max_depth + 1 - depth, 0nat, upto,
{
    if upto > 0 {
        let group = groups[upto - 1];
        let before = group_lines(db, rules, groups, depth, max_depth, (upto - 1) as nat);
        let head = LineView {
            depth,
            entry: EntryView::Facts { kind: group.kind, activation: group.activation, members: group.members },
        };
        let deeper = reason_lines(db, rules, group.reasons, depth + 1, max_depth);
        lemma_group_lines_branch(db, rules, groups, depth, max_depth, (upto - 1) as nat);
        lemma_reason_lines_branch(db, rules, group.reasons, depth + 1, max_depth);
        lemma_branching_headed(head, deeper);
        lemma_branching_joins(before, seq![head] + deeper);
        assert(before + seq![head] + deeper =~= before + (seq![head] + deeper));
        if upto > 1 {
            assert((before + (seq![head] + deeper))[0] == before[0]);
        } else {
            assert((before + (seq![head] + deeper))[0] == head);
        }
    }
}

/// Where every fact has a justification, no explanation ends in a line that
/// says what facts say: under each such line stands what justifies the
/// facts, or the express word that it was truncated. Together with
/// [`lemma_explanation_is_complete`]: where the facts are well founded too
/// and the depth suffices, an explanation ends in rules and assumptions
/// only.
pub proof fn lemma_explanation_branches(db: FactDbView, rules: Seq<RuleKind>, handle: usize, max_depth: nat)
    requires
        all_justified(db),
    ensures
        branching(explanation(db, rules, handle, max_depth)),
{
    if handle < db.facts.len() {
        let fact = db.facts[handle as int];
        lemma_reason_lines_branch(db, rules, fact.reasons, 1, max_depth);
        let head = LineView {
            depth: 0,
            entry: EntryView::Facts {
                kind: fact.kind,
                activation: fact.activation,
                members: seq![(handle, fact.position)],
            },
        };
        lemma_branching_headed(head, reason_lines(db, rules, fact.reasons, 1, max_depth));
    }
}

/// A line is a leaf of an explanation when no line one step deeper follows
/// it.
pub open spec fn is_leaf(lines: Seq<LineView>, i: int) -> bool {
    i + 1 >= lines.len() || lines[i + 1].depth <= lines[i].depth
}

/// Where every fact has a justification and cites only facts written down
/// before it, the explanation of a fact, given as many steps of depth as the
/// number of the fact, ends in rules and assumptions only: every leaf is the
/// citation of a rule or the word that a fact was assumed.
pub proof fn lemma_explanation_ends_in_rules_and_assumptions(
    db: FactDbView,
    rules: Seq<RuleKind>,
    handle: usize,
    max_depth: nat,
)
    requires
        db.well_founded(),
        all_justified(db),
        handle < db.facts.len(),
        handle <= max_depth,
    ensures
        forall|i: int|
            0 <= i < explanation(db, rules, handle, max_depth).len() && is_leaf(
                explanation(db, rules, handle, max_depth),
                i,
            ) ==> (#[trigger] explanation(db, rules, handle, max_depth)[i]).entry is Rule || explanation(
                db,
                rules,
                handle,
                max_depth,
            )[i].entry is Assumption,
{
    lemma_explanation_branches(db, rules, handle, max_depth);
    lemma_explanation_is_complete(db, rules, handle, max_depth);
}

} // verus!
