use vstd::prelude::*;
use crate::assignment::Assignment;
use crate::index::RunePosition;
use crate::rule::{verdict, RuleError, RuleKind};
use crate::rune::Rune;

verus! {

/// A lock: the rune carved at each of the twelve positions, the outer circle
/// first, and the rules a solution has to keep. Neither changes once the
/// lock is made, and a rule is known by its place in the list.
pub struct RuneLock {
    runes: [Rune; 12],
    rules: Vec<RuleKind>,
}

/// The first rule of the lock that fails on an assignment, by its place in
/// the list, and how it fails.
#[derive(Debug, Clone, Copy)]
pub enum RuneLockError {
    RuleViolated(usize, RuleKind),
    RuleUnfulfillable(usize, RuleKind),
}

impl RuneLock {
    /// The runes of the twelve positions.
    pub closed spec fn runes(&self) -> Seq<Rune> {
        self.runes@
    }

    /// The rules, in the order of the list.
    pub closed spec fn rules(&self) -> Seq<RuleKind> {
        self.rules@
    }

    /// A lock with the given runes and rules.
    pub fn new(runes: [Rune; 12], rules: Vec<RuleKind>) -> (lock: Self)
        ensures
            lock.runes() == runes@,
            lock.rules() == rules@,
    {
        RuneLock { runes, rules }
    }

    /// The rune carved at a position.
    pub fn rune_at(&self, position: RunePosition) -> (rune: Rune)
        ensures
            rune == self.runes()[position@ as int],
            self.runes().len() == 12,
    {
        self.runes[position.index()]
    }

    /// How many rules the lock has.
    pub fn rule_count(&self) -> (count: usize)
        ensures
            count == self.rules().len(),
    {
        self.rules.len()
    }

    /// The rule at a place of the list.
    pub fn rule(&self, index: usize) -> (rule: RuleKind)
        requires
            index < self.rules().len(),
        ensures
            rule == self.rules()[index as int],
    {
        self.rules[index]
    }

    /// Checks every rule against the assignment, in the order of the list, and
    /// reports the first one that does not pass.
    pub fn validate(&self, assignment: &Assignment) -> (checked: Result<(), RuneLockError>)
        ensures
            checked is Ok <==> forall|i: int|
                0 <= i < self.rules().len() ==> verdict(#[trigger] self.rules()[i], self.runes(), assignment@) is Ok,
            checked matches Err(e) ==> {
                let (rule_no, rule, error) = match e {
                    RuneLockError::RuleViolated(n, r) => (n, r, RuleError::Violated),
                    RuneLockError::RuleUnfulfillable(n, r) => (n, r, RuleError::Unfulfillable),
                };
                &&& rule_no < self.rules().len()
                &&& rule == self.rules()[rule_no as int]
                &&& verdict(rule, self.runes(), assignment@) == Err::<(), RuleError>(error)
                &&& forall|i: int|
                    0 <= i < rule_no ==> verdict(#[trigger] self.rules()[i], self.runes(), assignment@) is Ok
            },
    {
        let mut rule_no: usize = 0;
        while rule_no < self.rules.len()
            invariant
                rule_no <= self.rules().len(),
                forall|i: int|
                    0 <= i < rule_no ==> verdict(#[trigger] self.rules()[i], self.runes(), assignment@) is Ok,
            decreases self.rules().len() - rule_no,
        {
            let rule = self.rules[rule_no];
            match rule.validate(self, assignment) {
                Ok(_) => {},
                Err(RuleError::Violated) => {
                    return Err(RuneLockError::RuleViolated(rule_no, rule));
                },
                Err(RuleError::Unfulfillable) => {
                    return Err(RuneLockError::RuleUnfulfillable(rule_no, rule));
                },
            }
            rule_no += 1;
        }
        Ok(())
    }
}

} // verus!
