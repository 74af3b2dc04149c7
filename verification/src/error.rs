//! The row-scoped failures an adapter can report.

use vstd::prelude::*;

verus! {

/// Why one input row could not be turned into a record.
///
/// Every variant is scoped to a single row: the row that fails yields the
/// error in its place in the output sequence, and later rows still parse.
#[derive(Debug, Clone, Copy, PartialEq, Eq, Structural)]
pub enum ParseError {
    /// The row's bytes are not well formed under the adapter's encoding.
    Decoding,
    /// The row has fewer columns than the bank's layout requires.
    ColumnShape,
    /// A date column does not match the bank's date pattern.
    Date,
    /// A monetary column does not match the bank's numeric pattern, or
    /// names a value too large to hold.
    Currency,
}

} // verus!
