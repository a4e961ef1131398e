//! The decoded index as the builder reads it: documents, their occurrences
//! and their symbol-kind tables, as plain values.

use vstd::prelude::*;

verus! {

/// One recorded position of a symbol in a source file.
#[derive(Debug, Clone)]
pub struct Occurrence {
    /// The raw symbol string.
    pub symbol: String,
    /// A bit mask; the lowest bit marks a definition.
    pub symbol_roles: i32,
    /// Start line, start column, end line, end column; possibly shorter.
    pub range: Vec<i32>,
}

/// The kind number that the index gives for a symbol.
#[derive(Debug, Clone)]
pub struct SymbolInformation {
    pub symbol: String,
    pub kind: i32,
}

#[derive(Debug, Clone)]
pub struct Document {
    pub relative_path: String,
    pub occurrences: Vec<Occurrence>,
    pub symbols: Vec<SymbolInformation>,
}

#[derive(Debug, Clone)]
pub struct Index {
    pub documents: Vec<Document>,
    pub external_symbols: Vec<SymbolInformation>,
}

impl Occurrence {
    /// Whether the occurrence defines its symbol.
    pub open spec fn defines(self) -> bool {
        self.symbol_roles & 1 != 0
    }

    /// The line on which the occurrence starts; zero where the range is
    /// empty.
    pub open spec fn first_line(self) -> i32 {
        if self.range@.len() > 0 {
            self.range@[0]
        } else {
            0
        }
    }

    /// The line on which the occurrence ends; its first line where the range
    /// does not say.
    pub open spec fn last_line(self) -> i32 {
        if self.range@.len() > 2 {
            self.range@[2]
        } else {
            self.first_line()
        }
    }

    /// Whether the occurrence defines its symbol.
    pub fn is_definition(&self) -> (r: bool)
        ensures
            r == self.defines(),
    {
        self.symbol_roles & 1 != 0
    }

    /// The line on which the occurrence starts.
    pub fn start_line(&self) -> (r: i32)
        ensures
            r == self.first_line(),
    {
        if self.range.len() > 0 {
            self.range[0]
        } else {
            0
        }
    }

    /// The line on which the occurrence ends.
    pub fn end_line(&self) -> (r: i32)
        ensures
            r == self.last_line(),
    {
        if self.range.len() > 2 {
            self.range[2]
        } else {
            self.start_line()
        }
    }
}

} // verus!
