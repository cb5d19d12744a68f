use vstd::prelude::*;
use core::cmp::Ordering;

verus! {

/// A zero-based (line, column) coordinate in a text.
#[derive(Clone, Copy, PartialEq, Eq, Structural, Ord, Debug, Hash)]
pub struct Position {
    pub line: usize,
    pub column: usize,
}

/// The order of positions: by line, then by column.
pub open spec fn cmp_position(a: Position, b: Position) -> Ordering {
    if a.line < b.line {
        Ordering::Less
    } else if a.line > b.line {
        Ordering::Greater
    } else if a.column < b.column {
        Ordering::Less
    } else if a.column > b.column {
        Ordering::Greater
    } else {
        Ordering::Equal
    }
}

/// `a` comes strictly before `b`.
pub open spec fn before(a: Position, b: Position) -> bool {
    a.line < b.line || (a.line == b.line && a.column < b.column)
}

impl Position {
    pub fn new(line: usize, column: usize) -> (r: Position)
        ensures
            r.line == line,
            r.column == column,
    {
        Position { line, column }
    }

    /// Compares two positions by line, then by column.
    pub fn compare(&self, other: &Position) -> (r: Ordering)
        ensures
            r == cmp_position(*self, *other),
    {
        if self.line < other.line {
            Ordering::Less
        } else if self.line > other.line {
            Ordering::Greater
        } else if self.column < other.column {
            Ordering::Less
        } else if self.column > other.column {
            Ordering::Greater
        } else {
            Ordering::Equal
        }
    }
}

impl PartialOrd for Position {
    fn partial_cmp(&self, other: &Position) -> (r: Option<Ordering>)
        ensures
            r == Some(cmp_position(*self, *other)),
    {
        Some(self.compare(other))
    }
}

impl vstd::std_specs::cmp::PartialOrdSpecImpl for Position {
    open spec fn obeys_partial_cmp_spec() -> bool {
        true
    }

    open spec fn partial_cmp_spec(&self, other: &Position) -> Option<Ordering> {
        Some(cmp_position(*self, *other))
    }
}

/// A half-open span `[start, end)` of `length` characters in the source named `file_name`.
#[derive(Clone, Debug)]
pub struct Location {
    pub start: Position,
    pub end: Position,
    pub length: usize,
    pub file_name: String,
}

/// The order of locations: by start, then by end.
pub open spec fn cmp_location(a: Location, b: Location) -> Ordering {
    match cmp_position(a.start, b.start) {
        Ordering::Equal => cmp_position(a.end, b.end),
        o => o,
    }
}

impl Location {
    /// The location of the single character at `(line, column)`.
    pub fn single_char(line: usize, column: usize, file_name: String) -> (r: Location)
        requires
            column < usize::MAX,
        ensures
            r.start == (Position { line, column }),
            r.end == (Position { line, column: (column + 1) as usize }),
            r.length == 1,
            r.file_name@ == file_name@,
    {
        Location {
            start: Position { line, column },
            end: Position { line, column: column + 1 },
            length: 1,
            file_name,
        }
    }

    /// Compares two locations by start, then by end.
    pub fn compare(&self, other: &Location) -> (r: Ordering)
        ensures
            r == cmp_location(*self, *other),
    {
        match self.start.compare(&other.start) {
            Ordering::Equal => self.end.compare(&other.end),
            o => o,
        }
    }
}

impl PartialEq for Location {
    fn eq(&self, other: &Location) -> (r: bool)
        ensures
            r == (self.start == other.start && self.end == other.end && self.length
                == other.length && self.file_name@ == other.file_name@),
    {
        self.start == other.start && self.end == other.end && self.length == other.length
            && self.file_name == other.file_name
    }
}

impl vstd::std_specs::cmp::PartialEqSpecImpl for Location {
    open spec fn obeys_eq_spec() -> bool {
        true
    }

    open spec fn eq_spec(&self, other: &Location) -> bool {
        self.start == other.start && self.end == other.end && self.length == other.length
            && self.file_name@ == other.file_name@
    }
}

impl PartialOrd for Location {
    fn partial_cmp(&self, other: &Location) -> (r: Option<Ordering>)
        ensures
            r == Some(cmp_location(*self, *other)),
    {
        Some(self.compare(other))
    }
}

impl vstd::std_specs::cmp::PartialOrdSpecImpl for Location {
    open spec fn obeys_partial_cmp_spec() -> bool {
        true
    }

    open spec fn partial_cmp_spec(&self, other: &Location) -> Option<Ordering> {
        Some(cmp_location(*self, *other))
    }
}

} // verus!
