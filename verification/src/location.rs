use vstd::prelude::*;

verus! {

/// A position in a source file: a line and a column, both counted from one
/// by the lexer that creates them.
#[derive(Clone, Copy, Debug, PartialEq, Eq, Structural)]
pub struct Location {
    line_number: usize,
    column_number: usize,
}

impl Location {
    /// The line of this location.
    pub closed spec fn line(&self) -> nat {
        self.line_number as nat
    }

    /// The column of this location.
    pub closed spec fn column(&self) -> nat {
        self.column_number as nat
    }

    pub fn new(line_number: usize, column_number: usize) -> (location: Self)
        ensures
            location.line() == line_number,
            location.column() == column_number,
    {
        Self { line_number, column_number }
    }

    pub fn line_number(&self) -> (line: usize)
        ensures
            line == self.line(),
    {
        self.line_number
    }

    pub fn column_number(&self) -> (column: usize)
        ensures
            column == self.column(),
    {
        self.column_number
    }

    /// The first column of the next line.
    pub fn increment_line_number(&self) -> (next: Self)
        requires
            self.line() < usize::MAX,
        ensures
            next.line() == self.line() + 1,
            next.column() == 1,
    {
        Self::new(self.line_number + 1, 1)
    }

    /// The next column of the same line.
    pub fn increment_column_number(&self) -> (next: Self)
        requires
            self.column() < usize::MAX,
        ensures
            next.line() == self.line(),
            next.column() == self.column() + 1,
            column_step(*self, next),
    {
        Self::new(self.line_number, self.column_number + 1)
    }
}

/// Whether `to` is the column after `from` on the same line.
pub open spec fn column_step(from: Location, to: Location) -> bool {
    &&& to.line() == from.line()
    &&& to.column() == from.column() + 1
}

/// Column steps never change the line: after `k` of them, the line is the
/// same and the column has grown by `k`.
pub proof fn lemma_column_steps(locations: Seq<Location>)
    requires
        locations.len() >= 1,
        forall|i: int|
            0 <= i < locations.len() - 1 ==> #[trigger] column_step(locations[i], locations[i + 1]),
    ensures
        locations.last().line() == locations[0].line(),
        locations.last().column() == locations[0].column() + locations.len() - 1,
    decreases locations.len(),
{
    if locations.len() > 1 {
        let init = locations.drop_last();
        assert forall|i: int| 0 <= i < init.len() - 1 implies #[trigger] column_step(
            init[i],
            init[i + 1],
        ) by {
            assert(column_step(locations[i], locations[i + 1]));
        }
        lemma_column_steps(init);
        let k = locations.len() - 2;
        assert(column_step(locations[k], locations[k + 1]));
    }
}

} // verus!
