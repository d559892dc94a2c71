use vstd::prelude::*;
use vstd::string::StrSliceExecFns;
use std::num::ParseIntError;
use crate::activation::{Activation, ActivationError};
use crate::fact_solver::fact_db::FactHandle;
use crate::index::RunePosition;

verus! {

/// The error of the standard library's integer parsing, carried through as
/// it is.
#[verifier::external_type_specification]
#[verifier::external_body]
pub struct ExParseIntError(ParseIntError);

/// What is wrong with a command line.
#[derive(Debug)]
pub enum SolverCommandError {
    UnknownCommand(String),
    NotEnoughArguments { expected: usize },
    NumberFormat(ParseIntError),
    ActivationInvalid(ActivationError),
    PositionInvalid(usize),
}

/// What a session can ask for.
#[derive(Debug)]
pub enum SolverCommand {
    View { node: usize },
    Assume { position: RunePosition, activation: Activation },
    TryInPosition { position: RunePosition },
    TryActivation { activation: Activation },
    Explain { fact_handle: FactHandle },
    Dump,
}

/// A command as the contracts see it.
pub enum CommandView {
    View { node: nat },
    Assume { position: nat, activation: nat },
    TryInPosition { position: nat },
    TryActivation { activation: nat },
    Explain { fact_handle: nat },
    Dump,
}

/// What is wrong with a command line, as the contracts see it.
pub enum CommandErrorView {
    UnknownCommand(Seq<char>),
    NotEnoughArguments { expected: nat },
    NumberFormat,
    ActivationInvalid,
    PositionInvalid(nat),
}

impl View for SolverCommand {
    type V = CommandView;

    open spec fn view(&self) -> CommandView {
        match *self {
            SolverCommand::View { node } => CommandView::View { node: node as nat },
            SolverCommand::Assume { position, activation } => CommandView::Assume {
                position: position@,
                activation: activation@,
            },
            SolverCommand::TryInPosition { position } => CommandView::TryInPosition { position: position@ },
            SolverCommand::TryActivation { activation } => CommandView::TryActivation { activation: activation@ },
            SolverCommand::Explain { fact_handle } => CommandView::Explain { fact_handle: fact_handle.0 as nat },
            SolverCommand::Dump => CommandView::Dump,
        }
    }
}

impl View for SolverCommandError {
    type V = CommandErrorView;

    open spec fn view(&self) -> CommandErrorView {
        match *self {
            SolverCommandError::UnknownCommand(word) => CommandErrorView::UnknownCommand(word@),
            SolverCommandError::NotEnoughArguments { expected } => CommandErrorView::NotEnoughArguments {
                expected: expected as nat,
            },
            SolverCommandError::NumberFormat(_) => CommandErrorView::NumberFormat,
            SolverCommandError::ActivationInvalid(_) => CommandErrorView::ActivationInvalid,
            SolverCommandError::PositionInvalid(position) => CommandErrorView::PositionInvalid(position as nat),
        }
    }
}

/// The place of the first space at or after `from`, or the length of the
/// text if there is none.
pub open spec fn first_space(text: Seq<char>, from: int) -> int
    decreases text.len() - from,
{
    if from >= text.len() {
        text.len() as int
    } else if text[from] == ' ' {
        from
    } else {
        first_space(text, from + 1)
    }
}

/// What stands before the first space: the whole text if it has no space.
pub open spec fn head(text: Seq<char>) -> Seq<char> {
    text.take(first_space(text, 0))
}

/// What stands after the first space: nothing if the text has no space.
pub open spec fn tail(text: Seq<char>) -> Seq<char> {
    if first_space(text, 0) < text.len() {
        text.skip(first_space(text, 0) + 1)
    } else {
        Seq::empty()
    }
}

/// Whether a character is one of the ten digits.
pub open spec fn is_digit(c: char) -> bool {
    '0' <= c <= '9'
}

/// The number that a text of decimal digits writes; a text that is empty or
/// holds anything but digits writes none.
pub open spec fn decimal(digits: Seq<char>) -> Option<nat>
    decreases digits.len(),
{
    if digits.len() == 0 || !is_digit(digits.last()) {
        None
    } else if digits.len() == 1 {
        Some((digits.last() as u32 - '0' as u32) as nat)
    } else {
        match decimal(digits.drop_last()) {
            Some(before) => Some(before * 10 + (digits.last() as u32 - '0' as u32) as nat),
            None => None,
        }
    }
}

/// The number that a text writes: decimal digits, with or without a plus
/// sign before them, and nothing else.
pub open spec fn number(text: Seq<char>) -> Option<nat> {
    if text.len() > 0 && text[0] == '+' {
        decimal(text.skip(1))
    } else {
        decimal(text)
    }
}

/// What a command line means. The first word names the command, in full or
/// by its short form; the rest are its arguments, each set off by one space.
/// Positions are counted from zero, activations from one.
pub open spec fn meaning(text: Seq<char>) -> Result<CommandView, CommandErrorView> {
    let command = head(text);
    let args = tail(text);
    if command == "assume"@ || command == "a"@ {
        if first_space(args, 0) >= args.len() {
            Err(CommandErrorView::NotEnoughArguments { expected: 2 })
        } else {
            match (number(head(args)), number(tail(args))) {
                (Some(position), Some(activation)) => if position > usize::MAX || activation > u8::MAX {
                    Err(CommandErrorView::NumberFormat)
                } else if position >= 12 {
                    Err(CommandErrorView::PositionInvalid(position))
                } else if activation < 1 || activation > 12 {
                    Err(CommandErrorView::ActivationInvalid)
                } else {
                    Ok(CommandView::Assume { position, activation: (activation - 1) as nat })
                },
                _ => Err(CommandErrorView::NumberFormat),
            }
        }
    } else if command == "view"@ || command == "v"@ {
        match number(args) {
            Some(node) => if node > usize::MAX {
                Err(CommandErrorView::NumberFormat)
            } else {
                Ok(CommandView::View { node })
            },
            None => Err(CommandErrorView::NumberFormat),
        }
    } else if command == "explain"@ || command == "e"@ {
        match number(args) {
            Some(fact) => if fact > usize::MAX {
                Err(CommandErrorView::NumberFormat)
            } else {
                Ok(CommandView::Explain { fact_handle: fact })
            },
            None => Err(CommandErrorView::NumberFormat),
        }
    } else if command == "tryposition"@ || command == "tp"@ {
        match number(args) {
            Some(position) => if position > usize::MAX {
                Err(CommandErrorView::NumberFormat)
            } else if position >= 12 {
                Err(CommandErrorView::PositionInvalid(position))
            } else {
                Ok(CommandView::TryInPosition { position })
            },
            None => Err(CommandErrorView::NumberFormat),
        }
    } else if command == "tryactivation"@ || command == "ta"@ {
        match number(args) {
            Some(activation) => if activation > u8::MAX {
                Err(CommandErrorView::NumberFormat)
            } else if activation < 1 || activation > 12 {
                Err(CommandErrorView::ActivationInvalid)
            } else {
                Ok(CommandView::TryActivation { activation: (activation - 1) as nat })
            },
            None => Err(CommandErrorView::NumberFormat),
        }
    } else if command == "dump"@ || command == "d"@ {
        Ok(CommandView::Dump)
    } else {
        Err(CommandErrorView::UnknownCommand(command))
    }
}

/// Calls `str::parse::<usize>`. As the standard library documents it, the
/// text is read as decimal digits with an optional plus sign before them;
/// an empty text, any other character, and a number too large for `usize`
/// are errors.
#[verifier::external_body]
fn parse_usize(text: &str) -> (parsed: Result<usize, ParseIntError>)
    ensures
        match parsed {
            Ok(n) => number(text@) == Some(n as nat),
            Err(_) => number(text@) matches Some(v) ==> v > usize::MAX,
        },
{
    text.parse::<usize>()
}

/// Calls `str::parse::<u8>`. As the standard library documents it, the text
/// is read as decimal digits with an optional plus sign before them; an
/// empty text, any other character, and a number above 255 are errors.
#[verifier::external_body]
fn parse_u8(text: &str) -> (parsed: Result<u8, ParseIntError>)
    ensures
        match parsed {
            Ok(n) => number(text@) == Some(n as nat),
            Err(_) => number(text@) matches Some(v) ==> v > u8::MAX,
        },
{
    text.parse::<u8>()
}

/// Whether two texts are the same.
fn same_text(a: &str, b: &str) -> (same: bool)
    ensures
        same == (a@ == b@),
{
    let n = a.unicode_len();
    if n != b.unicode_len() {
        return false;
    }
    let mut i: usize = 0;
    while i < n
        invariant
            i <= n,
            n == a@.len(),
            n == b@.len(),
            forall|k: int| 0 <= k < i ==> a@[k] == b@[k],
        decreases n - i,
    {
        if a.get_char(i) != b.get_char(i) {
            return false;
        }
        i += 1;
    }
    assert(a@ =~= b@);
    true
}

/// Splits a text at its first space.
fn split_at_space<'a>(text: &'a str) -> (parts: (&'a str, &'a str, bool))
    ensures
        parts.0@ == head(text@),
        parts.1@ == tail(text@),
        parts.2 == (first_space(text@, 0) < text@.len()),
{
    let n = text.unicode_len();
    let mut i: usize = 0;
    while i < n
        invariant
            i <= n,
            n == text@.len(),
            first_space(text@, 0) == first_space(text@, i as int),
        decreases n - i,
    {
        if text.get_char(i) == ' ' {
            let before = text.substring_char(0, i);
            let after = text.substring_char(i + 1, n);
            assert(before@ =~= head(text@));
            assert(after@ =~= tail(text@));
            return (before, after, true);
        }
        i += 1;
    }
    let whole = text.substring_char(0, n);
    let nothing = text.substring_char(n, n);
    assert(whole@ =~= head(text@));
    assert(nothing@ =~= tail(text@));
    (whole, nothing, false)
}

impl SolverCommand {
    /// Reads a command line: see [`meaning`].
    pub fn parse(text: &str) -> (parsed: Result<Self, SolverCommandError>)
        ensures
            match parsed {
                Ok(command) => meaning(text@) == Ok::<CommandView, CommandErrorView>(command@),
                Err(error) => meaning(text@) == Err::<CommandView, CommandErrorView>(error@),
            },
    {
        let (command, args, _) = split_at_space(text);
        if same_text(command, "assume") || same_text(command, "a") {
            let (position, activation, found) = split_at_space(args);
            if !found {
                return Err(SolverCommandError::NotEnoughArguments { expected: 2 });
            }
            let position = match parse_usize(position) {
                Ok(n) => n,
                Err(e) => {
                    return Err(SolverCommandError::NumberFormat(e));
                },
            };
            let activation = match parse_u8(activation) {
                Ok(n) => n,
                Err(e) => {
                    return Err(SolverCommandError::NumberFormat(e));
                },
            };
            if position >= 12 {
                return Err(SolverCommandError::PositionInvalid(position));
            }
            let position = RunePosition::new(position);
            let activation = match Activation::from_human(activation) {
                Ok(a) => a,
                Err(e) => {
                    return Err(SolverCommandError::ActivationInvalid(e));
                },
            };
            Ok(SolverCommand::Assume { position, activation })
        } else if same_text(command, "view") || same_text(command, "v") {
            match parse_usize(args) {
                Ok(node) => Ok(SolverCommand::View { node }),
                Err(e) => Err(SolverCommandError::NumberFormat(e)),
            }
        } else if same_text(command, "explain") || same_text(command, "e") {
            match parse_usize(args) {
                Ok(fact) => Ok(SolverCommand::Explain { fact_handle: FactHandle::from_raw(fact) }),
                Err(e) => Err(SolverCommandError::NumberFormat(e)),
            }
        } else if same_text(command, "tryposition") || same_text(command, "tp") {
            match parse_usize(args) {
                Ok(position) => {
                    if position >= 12 {
                        Err(SolverCommandError::PositionInvalid(position))
                    } else {
                        Ok(SolverCommand::TryInPosition { position: RunePosition::new(position) })
                    }
                },
                Err(e) => Err(SolverCommandError::NumberFormat(e)),
            }
        } else if same_text(command, "tryactivation") || same_text(command, "ta") {
            match parse_u8(args) {
                Ok(act) => match Activation::from_human(act) {
                    Ok(activation) => Ok(SolverCommand::TryActivation { activation }),
                    Err(e) => Err(SolverCommandError::ActivationInvalid(e)),
                },
                Err(e) => Err(SolverCommandError::NumberFormat(e)),
            }
        } else if same_text(command, "dump") || same_text(command, "d") {
            Ok(SolverCommand::Dump)
        } else {
            Err(SolverCommandError::UnknownCommand(command.to_owned()))
        }
    }
}

} // verus!
