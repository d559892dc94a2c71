use vstd::prelude::*;
use crate::activation::Activation;
use crate::index::RunePosition;

verus! {

/// The two ways to cut the grid into lines. The line of a position is its
/// row: the cells of that position with every activation. The line of an
/// activation is its column: the cells of that activation on every position.
#[derive(Debug, Clone, Copy, PartialEq, Eq, Structural)]
pub enum ViewAxis {
    Position,
    Activation,
}

impl ViewAxis {
    /// The row and the column of the `k`th cell of a line.
    pub open spec fn cell(self, line: int, k: int) -> (int, int) {
        match self {
            ViewAxis::Position => (line, k),
            ViewAxis::Activation => (k, line),
        }
    }

    /// The row and the column of the `k`th cell of a line.
    pub fn cell_of(self, line: usize, k: usize) -> (cell: (usize, usize))
        ensures
            (cell.0 as int, cell.1 as int) == self.cell(line as int, k as int),
    {
        match self {
            ViewAxis::Position => (line, k),
            ViewAxis::Activation => (k, line),
        }
    }
}

/// Something that names a line of the grid: a position or an activation.
/// Its complement is what varies along the line.
pub trait ChooseView: Sized + Copy {
    type Complement: Copy;

    /// The way of cutting the grid in which values of this type name lines.
    spec fn axis_of() -> ViewAxis;

    /// The number of the line that the value names.
    spec fn line(self) -> nat;

    /// The place on a line that a complement stands for.
    spec fn place(complement: Self::Complement) -> nat;

    fn axis() -> (axis: ViewAxis)
        ensures
            axis == Self::axis_of(),
    ;

    fn index(&self) -> (line: usize)
        ensures
            line == self.line(),
            line < 12,
    ;

    fn from_usize(it: usize) -> (made: Self)
        requires
            it < 12,
        ensures
            made.line() == it,
    ;

    fn complement_from_usize(it: usize) -> (made: Self::Complement)
        requires
            it < 12,
        ensures
            Self::place(made) == it,
    ;

    fn choose_position(s: Self, c: Self::Complement) -> (position: RunePosition)
        ensures
            position@ == Self::axis_of().cell(s.line() as int, Self::place(c) as int).0,
    ;

    fn choose_activation(s: Self, c: Self::Complement) -> (activation: Activation)
        ensures
            activation@ == Self::axis_of().cell(s.line() as int, Self::place(c) as int).1,
    ;
}

impl ChooseView for RunePosition {
    type Complement = Activation;

    open spec fn axis_of() -> ViewAxis {
        ViewAxis::Position
    }

    open spec fn line(self) -> nat {
        self@
    }

    open spec fn place(complement: Activation) -> nat {
        complement@
    }

    fn axis() -> (axis: ViewAxis) {
        ViewAxis::Position
    }

    fn index(&self) -> (line: usize) {
        RunePosition::index(self)
    }

    fn from_usize(it: usize) -> (made: Self) {
        RunePosition::new(it)
    }

    fn complement_from_usize(it: usize) -> (made: Activation) {
        Activation::new(it as u8).unwrap()
    }

    fn choose_position(s: Self, c: Activation) -> (position: RunePosition) {
        s
    }

    fn choose_activation(s: Self, c: Activation) -> (activation: Activation) {
        c
    }
}

impl ChooseView for Activation {
    type Complement = RunePosition;

    open spec fn axis_of() -> ViewAxis {
        ViewAxis::Activation
    }

    open spec fn line(self) -> nat {
        self@
    }

    open spec fn place(complement: RunePosition) -> nat {
        complement@
    }

    fn axis() -> (axis: ViewAxis) {
        ViewAxis::Activation
    }

    fn index(&self) -> (line: usize) {
        Activation::index(self)
    }

    fn from_usize(it: usize) -> (made: Self) {
        Activation::new(it as u8).unwrap()
    }

    fn complement_from_usize(it: usize) -> (made: RunePosition) {
        RunePosition::new(it)
    }

    fn choose_position(s: Self, c: RunePosition) -> (position: RunePosition) {
        c
    }

    fn choose_activation(s: Self, c: RunePosition) -> (activation: Activation) {
        s
    }
}

} // verus!
