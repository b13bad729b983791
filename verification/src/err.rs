//! The error taxonomy: lexical, semantic and structural failures, each
//! optionally bound to a source line, with aggregation for multi-line reports.

use vstd::prelude::*;

use crate::parse::Token;

verus! {

/// One failure bound to the 1-based source line it was found on.
#[derive(Debug, PartialEq)]
pub struct LineErr {
    pub line: usize,
    pub err: TokErr,
}

/// Every failure the library reports.
///
/// A full-log parse surfaces either a single structural failure (the grammar
/// rejected the input) or `Lines`, collecting every per-record semantic
/// failure found while folding.
#[derive(Debug, PartialEq)]
pub enum TokErr {
    /// A free-form message.
    Mess(String),
    /// A needed piece of context (named here) was never set.
    NotSet(String),
    /// The grammar rejected the input at this 1-based line and column.
    ParseErr(usize, usize),
    /// An integer literal was out of range.
    ParseIntErr,
    /// A token was needed and none was left.
    NoToken,
    /// A clock-out lay before its clock-in.
    NegativeTime,
    /// The token was asked for its number and is none.
    NotNum(Token),
    /// The token was asked for its string and is none.
    NotString(Token),
    /// All per-line failures of one pass, in encounter order.
    Lines(Vec<LineErr>),
}

impl TokErr {
    /// Bind this error to a 1-based source line.
    pub fn on_line(self, n: usize) -> (r: LineErr)
        ensures
            r.line == n,
            r.err == self,
    {
        LineErr { line: n, err: self }
    }
}

} // verus!
